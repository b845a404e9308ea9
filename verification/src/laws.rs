//! Properties of the library that relate several of its functions: round
//! trips, what undo and redo restore, and what the colour accessors keep.

use vstd::prelude::*;
use crate::editor::{min_int, Editor};
use crate::text::{byte_len, byte_offset, is_blank, is_boundary, is_snap, is_ws, join_spec, lines_spec, no_newlines, split_seq, strip_cr, trim};
use crate::commands::{command_post, Command, Reply};
use crate::config::{first_index_of, key_index, parse_line, parse_lines, parse_spec, serialize_spec};
use crate::table::{active_bounds_spec, block_end, lemma_block_end_bounds, segments_from, source_matches, table_bounds_spec, Segment};
use crate::editor::{block_ranges_of, merge_previous_post, plan_ok, prefix_len, split_post, suffix_len, BlockPlan};
use crate::theme::{hex_string_spec, parse_hex_spec, tag_index, MarkdownColors, MarkdownTag};
use crate::vim::{linewise_spec, Move, Operator};
use crate::table::is_delim;
use crate::table_source::{cells_spec, first_table_start, parsed_from, pipe_run_end, row_views, ParsedTable};
use crate::motion::{alphanumeric, class_of, word_backward_spec, word_end_spec, word_forward_spec, Class};
use crate::bindings::{insert_binding_spec, BindingContext, EditKey, InsertBinding};
use crate::vim_move::{char_range, moved_n, moved_spec, operator_motion_post, word_backward_n, word_end_n, word_forward_n};
use crate::motion::first_non_blank_spec;
use crate::vim_edit::{push_bounded, pushed_undo, redo_post, rest_col, snap_view, stack_view, undo_post, UNDO_LIMIT};

verus! {

/// A char index turned into a byte offset (`char_to_byte`) and back
/// (`byte_to_char`) is the index again, clamped to the line's length.
pub proof fn law_char_byte_round_trip(s: Seq<char>, k: int)
    requires
        k >= 0,
    ensures
        is_snap(s, byte_offset(s, k) as int, min_int(k, s.len() as int)),
{
    let m = min_int(k, s.len() as int);
    assert(byte_offset(s, k) == byte_offset(s, m));
    crate::text::lemma_snap_of_offset(s, m);
}

/// Saving a document (its lines joined by `\n`) and loading the text again
/// gives back the same lines.
pub proof fn law_save_then_load(e: Editor)
    requires
        e.doc_ok(),
    ensures
        split_seq(join_spec(e.doc()), '\n') == e.doc(),
{
    crate::text::lemma_split_join(e.doc());
}

/// Loading a text (its pieces between newlines become the lines) and saving
/// the document again gives back exactly that text.
pub proof fn law_load_then_save(t: Seq<char>, e: Editor)
    requires
        e.doc() == split_seq(t, '\n'),
    ensures
        join_spec(e.doc()) == t,
{
    crate::text::lemma_join_split(t);
}

/// The undo history grows by the new snapshot and never holds more than
/// [`UNDO_LIMIT`] snapshots; the newest one is on top.
pub proof fn law_undo_history_bounded(s: Seq<(Seq<Seq<char>>, int, int)>, x: (Seq<Seq<char>>, int, int))
    requires
        s.len() <= UNDO_LIMIT,
    ensures
        push_bounded(s, x).len() <= UNDO_LIMIT,
        push_bounded(s, x).last() == x,
{
}

/// Undo right after an edit (any edit that records an undo snapshot)
/// restores the document and the cursor as they were before the edit.
pub proof fn law_undo_restores(before: Editor, edited: Editor, undone: Editor)
    requires
        before.wf(),
        pushed_undo(before, edited),
        undo_post(edited, undone),
    ensures
        undone.doc() == before.doc(),
        undone.activated(
            before.doc(),
            before.cursor_row(),
            rest_col(before.doc()[before.cursor_row()], before.cursor_col as int),
        ),
{
    let st = edited.undo_stack@;
    assert(stack_view(st).len() == st.len());
    assert(stack_view(st).last() == snap_view(st.last()));
}

/// Redo right after an undo restores the document and cursor the undo
/// replaced.
pub proof fn law_redo_after_undo(a: Editor, b: Editor, c: Editor)
    requires
        a.wf(),
        a.undo_stack@.len() > 0,
        undo_post(a, b),
        redo_post(b, c),
    ensures
        c.doc() == a.doc(),
        c.activated(a.doc(), a.cursor_row(), rest_col(a.doc()[a.cursor_row()], a.cursor_col as int)),
{
    let st = b.redo_stack@;
    assert(stack_view(st).len() == st.len());
    assert(stack_view(st).last() == snap_view(st.last()));
}

/// A colour written as `#rrggbb` reads back as the same colour.
pub proof fn law_hex_round_trip(r: u8, g: u8, b: u8)
    ensures
        parse_hex_spec(hex_string_spec(r, g, b)) == Some((r, g, b)),
{
    crate::theme::lemma_hex_round_trip(r, g, b);
}

/// After `get_mut(tag)` stores `v`, `get(tag)` returns `v` and every other
/// tag keeps its value.
pub proof fn law_get_after_set(m: Seq<Seq<char>>, tag: MarkdownTag, other: MarkdownTag, v: Seq<char>)
    requires
        m.len() == 15,
    ensures
        m.update(tag_index(tag), v)[tag_index(tag)] == v,
        other != tag ==> m.update(tag_index(tag), v)[tag_index(other)] == m[tag_index(other)],
{
}

/// Writing the colour configuration and reading the file back gives the
/// same overrides, for every configuration whose values hold no newline.
pub proof fn law_config_round_trip(c: MarkdownColors)
    requires
        forall|i: int| 0 <= i < 15 ==> !(#[trigger] c@[i]).contains('\n'),
    ensures
        parse_spec(serialize_spec(c@)) == c@,
{
    crate::config::lemma_round_trip(c@);
}

/// Whichever line of the raw region the cursor is placed on, the region is
/// the same: a table is always edited whole.
pub proof fn law_active_region_stable(ls: Seq<Seq<char>>, line: int, l2: int)
    requires
        0 <= line < ls.len(),
        active_bounds_spec(ls, line).0 <= l2 < active_bounds_spec(ls, line).1,
    ensures
        active_bounds_spec(ls, l2) == active_bounds_spec(ls, line),
{
    if table_bounds_spec(ls, line) is Some {
        crate::table::lemma_table_stable(ls, line, l2);
    }
}

/// The front blocks counted as unchanged all match their previous source.
proof fn lemma_prefix_matches(d: Seq<Seq<char>>, rs: Seq<(int, int)>, old: Seq<Seq<char>>, k: int, i: int)
    requires
        0 <= k <= i < prefix_len(d, rs, old, k),
    ensures
        i < rs.len() && i < old.len() && source_matches(d, rs[i], old[i]),
    decreases rs.len() - k,
{
    if k < i {
        lemma_prefix_matches(d, rs, old, k + 1, i);
    }
}

/// The back blocks counted as unchanged all match their previous source.
proof fn lemma_suffix_matches(
    d: Seq<Seq<char>>,
    rs: Seq<(int, int)>,
    old: Seq<Seq<char>>,
    p: int,
    k: int,
    i: int,
)
    requires
        0 <= k <= i < suffix_len(d, rs, old, p, k),
    ensures
        0 <= p,
        i < rs.len() - p && i < old.len() - p,
        source_matches(d, rs[rs.len() - 1 - i], old[old.len() - 1 - i]),
    decreases rs.len() - k,
{
    if k < i {
        lemma_suffix_matches(d, rs, old, p, k + 1, i);
    }
}

/// A block that the rebuild plan keeps from the previous render has exactly
/// the source text it was parsed from, so reusing it renders the same as
/// parsing it again.
pub proof fn law_reuse_is_sound(d: Seq<Seq<char>>, rs: Seq<(int, int)>, old: Seq<Seq<char>>, i: int, j: usize)
    requires
        0 <= i < rs.len(),
        old.len() <= usize::MAX,
        plan_ok(d, rs, old, i, BlockPlan::Reuse(j)),
    ensures
        j < old.len(),
        source_matches(d, rs[i], old[j as int]),
{
    let pre = prefix_len(d, rs, old, 0);
    let suf = suffix_len(d, rs, old, pre, 0);
    if i < pre {
        lemma_prefix_matches(d, rs, old, 0, i);
    } else {
        let k = rs.len() - 1 - i;
        lemma_suffix_matches(d, rs, old, pre, 0, k);
    }
}

/// Enter on a standalone line followed by Backspace at the start of the new
/// line gives back the document as it was (when the new line does not join
/// a table, so that it is the region's first line).
pub proof fn law_split_then_merge(o: Editor, s: Editor, m: Editor)
    requires
        o.wf(),
        o.active_end == o.active_start + 1,
        split_post(o, s),
        s.active_start == o.active_start + 1,
        merge_previous_post(s, m),
    ensures
        m.doc() == o.doc(),
        m.cursor_row() == o.cursor_row(),
        m.cursor_col == o.cursor_col,
{
    let d = o.doc();
    let r = o.active_start as int;
    let c = o.cursor_col as int;
    let d2 = s.doc();
    assert(d2[r] + d2[r + 1] =~= d[r]);
    assert(d2.update(r, d2[r] + d2[r + 1]).remove(r + 1) =~= d);
    crate::table::lemma_active_bounds(d, r);
}

/// The source texts of the blocks among `segs`, in order.
spec fn seg_texts(d: Seq<Seq<char>>, segs: Seq<Segment>) -> Seq<Seq<char>>
    decreases segs.len(),
{
    if segs.len() == 0 {
        Seq::empty()
    } else {
        let rest = seg_texts(d, segs.drop_first());
        match segs[0] {
            Segment::Block { start, end } => seq![join_spec(d.subrange(start as int, end as int))] + rest,
            _ => rest,
        }
    }
}

/// [`seg_texts`] lists, for each block range, its lines joined.
proof fn lemma_seg_texts_ranges(d: Seq<Seq<char>>, segs: Seq<Segment>)
    ensures
        seg_texts(d, segs).len() == block_ranges_of(segs).len(),
        forall|i: int| 0 <= i < seg_texts(d, segs).len() ==> #[trigger] seg_texts(d, segs)[i] == join_spec(
            d.subrange(block_ranges_of(segs)[i].0, block_ranges_of(segs)[i].1),
        ),
    decreases segs.len(),
{
    if segs.len() > 0 {
        lemma_seg_texts_ranges(d, segs.drop_first());
    }
}

/// A block started at or before the region's start ends there at the
/// latest.
proof fn lemma_block_end_before(ls: Seq<Seq<char>>, j: int, a: int)
    requires
        0 <= j <= a,
    ensures
        j <= block_end(ls, j, a) <= a,
    decreases a - j,
{
    if j < a && j < ls.len() && !is_blank(ls[j]) {
        lemma_block_end_before(ls, j + 1, a);
    }
}

/// Before the region's start, where two documents agree, so do their
/// block ends.
proof fn lemma_block_end_agree(d1: Seq<Seq<char>>, d2: Seq<Seq<char>>, j: int, a: int)
    requires
        0 <= j <= a,
        a < d1.len(),
        a < d2.len(),
        forall|k: int| 0 <= k < a ==> #[trigger] d1[k] == d2[k],
    ensures
        block_end(d1, j, a) == block_end(d2, j, a),
    decreases a - j,
{
    if j < a {
        lemma_block_end_agree(d1, d2, j + 1, a);
    }
}

/// After the region, the block ends of two documents whose tails agree
/// (line `k` of the first is line `k + delta` of the second) agree too.
proof fn lemma_block_end_shift(d1: Seq<Seq<char>>, d2: Seq<Seq<char>>, b1: int, delta: int, j: int, a: int)
    requires
        0 <= a < b1 <= j <= d1.len(),
        a < b1 + delta,
        d2.len() == d1.len() + delta,
        forall|k: int| b1 <= k < d1.len() ==> #[trigger] d1[k] == d2[k + delta],
    ensures
        block_end(d2, j + delta, a) == block_end(d1, j, a) + delta,
    decreases d1.len() - j,
{
    if j < d1.len() {
        assert(d1[j] == d2[j + delta]);
        lemma_block_end_shift(d1, d2, b1, delta, j + 1, a);
    }
}

/// The blocks after the region of two documents with agreeing tails have
/// the same texts.
proof fn lemma_texts_after(d1: Seq<Seq<char>>, d2: Seq<Seq<char>>, a: int, b1: int, b2: int, i: int)
    requires
        0 <= a < b1 <= i <= d1.len(),
        a < b2,
        d2.len() == d1.len() + (b2 - b1),
        d1.len() <= usize::MAX,
        d2.len() <= usize::MAX,
        forall|k: int| b1 <= k < d1.len() ==> #[trigger] d1[k] == d2[k + (b2 - b1)],
    ensures
        seg_texts(d1, segments_from(d1, a, b1, i)) == seg_texts(d2, segments_from(d2, a, b2, i + (b2 - b1))),
    decreases d1.len() - i,
{
    let delta = b2 - b1;
    if i < d1.len() {
        assert(d1[i] == d2[i + delta]);
        let s1 = segments_from(d1, a, b1, i);
        let s2 = segments_from(d2, a, b2, i + delta);
        if is_blank(d1[i]) {
            lemma_texts_after(d1, d2, a, b1, b2, i + 1);
            assert(s1.drop_first() =~= segments_from(d1, a, b1, i + 1));
            assert(s2.drop_first() =~= segments_from(d2, a, b2, i + 1 + delta));
        } else {
            let e1 = block_end(d1, i + 1, a);
            lemma_block_end_bounds(d1, i + 1, a);
            lemma_block_end_shift(d1, d2, b1, delta, i + 1, a);
            lemma_texts_after(d1, d2, a, b1, b2, e1);
            assert(s1.drop_first() =~= segments_from(d1, a, b1, e1));
            assert(s2.drop_first() =~= segments_from(d2, a, b2, e1 + delta));
            assert forall|k: int| 0 <= k < e1 - i implies #[trigger] d1.subrange(i, e1)[k] == d2.subrange(
                i + delta,
                e1 + delta,
            )[k] by {
                assert(d1[i + k] == d2[i + k + delta]);
            }
            assert(d1.subrange(i, e1) =~= d2.subrange(i + delta, e1 + delta));
        }
    }
}

/// Walking up to the region's start, two documents that agree there give
/// the same block texts, once the rest (from the region's end on) does.
proof fn lemma_texts_before(d1: Seq<Seq<char>>, d2: Seq<Seq<char>>, a: int, b1: int, b2: int, i: int)
    requires
        0 <= i <= a < b1 <= d1.len(),
        a < b2 <= d2.len(),
        d1.len() <= usize::MAX,
        d2.len() <= usize::MAX,
        forall|k: int| 0 <= k < a ==> #[trigger] d1[k] == d2[k],
        seg_texts(d1, segments_from(d1, a, b1, b1)) == seg_texts(d2, segments_from(d2, a, b2, b2)),
    ensures
        seg_texts(d1, segments_from(d1, a, b1, i)) == seg_texts(d2, segments_from(d2, a, b2, i)),
    decreases a - i,
{
    let s1 = segments_from(d1, a, b1, i);
    let s2 = segments_from(d2, a, b2, i);
    if i == a {
        assert(s1.drop_first() =~= segments_from(d1, a, b1, b1));
        assert(s2.drop_first() =~= segments_from(d2, a, b2, b2));
    } else {
        assert(d1[i] == d2[i]);
        if is_blank(d1[i]) {
            lemma_texts_before(d1, d2, a, b1, b2, i + 1);
            assert(s1.drop_first() =~= segments_from(d1, a, b1, i + 1));
            assert(s2.drop_first() =~= segments_from(d2, a, b2, i + 1));
        } else {
            let e = block_end(d1, i + 1, a);
            lemma_block_end_before(d1, i + 1, a);
            lemma_block_end_agree(d1, d2, i + 1, a);
            lemma_texts_before(d1, d2, a, b1, b2, e);
            assert(s1.drop_first() =~= segments_from(d1, a, b1, e));
            assert(s2.drop_first() =~= segments_from(d2, a, b2, e));
            assert(d1.subrange(i, e) =~= d2.subrange(i, e));
        }
    }
}

/// Editing the raw region in Insert or Visual mode (its lines replaced by
/// the pieces of the new text) leaves every rendered block as it was: the
/// same number of blocks, each with the same source text, so the parsed
/// blocks need no rebuild.
pub proof fn law_edit_keeps_blocks(o: Editor, n: Editor, text: Seq<char>)
    requires
        o.wf(),
        o.edit_mode(),
        n.vim.mode == o.vim.mode,
        o.doc().len() <= usize::MAX,
        n.doc().len() <= usize::MAX,
        n.doc() == o.doc().subrange(0, o.active_start as int) + split_seq(text, '\n') + o.doc().subrange(
            o.active_end as int,
            o.doc().len() as int,
        ),
        n.active_start == o.active_start,
        n.active_end == o.active_start + split_seq(text, '\n').len(),
    ensures
        block_ranges_of(n.segments_spec()).len() == block_ranges_of(o.segments_spec()).len(),
        forall|i: int|
            0 <= i < block_ranges_of(o.segments_spec()).len() ==> join_spec(
                n.doc().subrange(
                    block_ranges_of(n.segments_spec())[i].0,
                    block_ranges_of(n.segments_spec())[i].1,
                ),
            ) == join_spec(
                o.doc().subrange(
                    #[trigger] block_ranges_of(o.segments_spec())[i].0,
                    block_ranges_of(o.segments_spec())[i].1,
                ),
            ),
{
    let d1 = o.doc();
    let d2 = n.doc();
    let parts = split_seq(text, '\n');
    crate::text::lemma_split_nonempty(text, '\n');
    let a = o.active_start as int;
    let b1 = o.active_end as int;
    let b2 = n.active_end as int;
    assert(d2.len() == d1.len() + (b2 - b1));
    assert forall|k: int| 0 <= k < a implies #[trigger] d1[k] == d2[k] by {
        assert(d2[k] == (d1.subrange(0, a) + parts)[k]);
    }
    assert forall|k: int| b1 <= k < d1.len() implies #[trigger] d1[k] == d2[k + (b2 - b1)] by {
        assert(d2[k + (b2 - b1)] == d1.subrange(b1, d1.len() as int)[k - b1]);
    }
    lemma_texts_after(d1, d2, a, b1, b2, b1);
    lemma_texts_before(d1, d2, a, b1, b2, 0);
    lemma_seg_texts_ranges(d1, o.segments_spec());
    lemma_seg_texts_ranges(d2, n.segments_spec());
    let t1 = seg_texts(d1, o.segments_spec());
    let t2 = seg_texts(d2, n.segments_spec());
    assert forall|i: int| 0 <= i < block_ranges_of(o.segments_spec()).len() implies join_spec(
        d2.subrange(block_ranges_of(n.segments_spec())[i].0, block_ranges_of(n.segments_spec())[i].1),
    ) == join_spec(
        d1.subrange(#[trigger] block_ranges_of(o.segments_spec())[i].0, block_ranges_of(o.segments_spec())[i].1),
    ) by {
        assert(t1[i] == t2[i]);
    }
}

/// In Normal mode the cursor line is rendered inside its block, so the
/// rendered layout depends on the document alone: moving the cursor (or the
/// raw region) without editing never changes it.
pub proof fn law_view_layout_ignores_cursor(e1: Editor, e2: Editor)
    requires
        !e1.edit_mode(),
        !e2.edit_mode(),
        e1.doc() == e2.doc(),
    ensures
        e1.segments_spec() == e2.segments_spec(),
{
}

/// A config line that reading leaves without effect: blank, a `#` comment,
/// without a colon, or with a key that names no tag.
pub open spec fn ignored_line(j: Seq<char>) -> bool {
    let t = trim(j);
    ||| t.len() == 0
    ||| t[0] == '#'
    ||| first_index_of(t, ':') is None
    ||| (first_index_of(t, ':') matches Some(p) && key_index(trim(t.take(p))) is None)
}

/// An ignored line changes nothing, with or without a trailing `\r`.
pub proof fn lemma_ignored_line(m: Seq<Seq<char>>, j: Seq<char>)
    requires
        ignored_line(j),
    ensures
        parse_line(m, j) == m,
        parse_line(m, strip_cr(j)) == m,
{
    if j.len() > 0 && j.last() == '\r' {
        assert(is_ws(j.last()));
        crate::text::lemma_trim_drop_last_ws(j);
    }
}

/// Reading `ls1`, which is `ls2` with the line at `p` inserted, where that
/// line changes nothing, gives the same overrides line for line.
pub proof fn lemma_parse_lines_skip(ls1: Seq<Seq<char>>, ls2: Seq<Seq<char>>, p: int, k: int)
    requires
        0 <= p < ls1.len(),
        ls1.len() == ls2.len() + 1,
        forall|i: int| 0 <= i < p ==> #[trigger] ls1[i] == ls2[i],
        forall|i: int| p < i < ls1.len() ==> #[trigger] ls1[i] == ls2[i - 1],
        forall|m: Seq<Seq<char>>| #[trigger] parse_line(m, ls1[p]) == m,
        0 <= k <= ls1.len(),
    ensures
        parse_lines(ls1, k) == if k <= p {
            parse_lines(ls2, k)
        } else {
            parse_lines(ls2, k - 1)
        },
    decreases k,
{
    if k > 0 {
        lemma_parse_lines_skip(ls1, ls2, p, k - 1);
        if k == p + 1 {
            assert(parse_line(parse_lines(ls1, k - 1), ls1[p]) == parse_lines(ls1, k - 1));
        } else if k > p + 1 {
            assert(ls1[k - 1] == ls2[k - 2]);
        } else {
            assert(ls1[k - 1] == ls2[k - 1]);
        }
    }
}

/// Blank lines, `#` comments, lines without a colon and lines whose key
/// names no tag do not change what a configuration reads as: inserting such
/// a line at a line start leaves the result as it was.
pub proof fn law_parse_ignores_line(t: Seq<char>, j: Seq<char>, u: Seq<char>)
    requires
        t.len() == 0 || t.last() == '\n',
        !j.contains('\n'),
        ignored_line(j),
    ensures
        parse_spec(t + j + seq!['\n'] + u) == parse_spec(t + u),
{
    let s1 = t + j + seq!['\n'] + u;
    let s2 = t + u;
    let b = split_seq(u, '\n');
    crate::text::lemma_split_nonempty(u, '\n');
    crate::text::lemma_split_no_sep(j, '\n');
    crate::text::lemma_split_concat(j, u, '\n');
    assert(split_seq(j.push('\n') + u, '\n') =~= seq![j] + b);
    let a = if t.len() == 0 {
        Seq::<Seq<char>>::empty()
    } else {
        split_seq(t.drop_last(), '\n')
    };
    if t.len() == 0 {
        assert(s1 =~= j.push('\n') + u);
        assert(s2 =~= u);
    } else {
        let t1 = t.drop_last();
        assert(s1 =~= t1.push('\n') + (j.push('\n') + u));
        assert(s2 =~= t1.push('\n') + u);
        crate::text::lemma_split_concat(t1, j.push('\n') + u, '\n');
        crate::text::lemma_split_concat(t1, u, '\n');
    }
    let parts1 = split_seq(s1, '\n');
    let parts2 = split_seq(s2, '\n');
    assert(parts1 =~= a + seq![j] + b);
    assert(parts2 =~= a + b);
    let p = a.len() as int;
    let l1 = lines_spec(s1);
    let l2 = lines_spec(s2);
    assert(parts1.last() == b.last());
    assert(parts2.last() == b.last());
    assert(l1.len() == l2.len() + 1);
    assert forall|i: int| 0 <= i < p implies #[trigger] l1[i] == l2[i] by {
        assert(parts1[i] == a[i]);
        assert(parts2[i] == a[i]);
    }
    assert forall|i: int| p < i < l1.len() implies #[trigger] l1[i] == l2[i - 1] by {
        assert(parts1[i] == b[i - p - 1]);
        assert(parts2[i - 1] == b[i - p - 1]);
    }
    assert(l1[p] == strip_cr(j));
    assert forall|m: Seq<Seq<char>>| #[trigger] parse_line(m, l1[p]) == m by {
        lemma_ignored_line(m, j);
    }
    lemma_parse_lines_skip(l1, l2, p, l1.len() as int);
}

/// A byte offset snapped to a char index (`byte_to_char`) and turned back
/// into a byte offset (`char_to_byte`) is the greatest char boundary of the
/// line at or below the offset (the line's length when it is past the end).
pub proof fn law_byte_char_snap(s: Seq<char>, b: int, k: int)
    requires
        b >= 0,
        is_snap(s, b, k),
    ensures
        is_boundary(s, byte_offset(s, k) as int),
        byte_offset(s, k) <= b,
        byte_offset(s, k) <= byte_len(s),
        forall|k2: int|
            0 <= k2 <= s.len() && #[trigger] byte_offset(s, k2) <= b ==> byte_offset(s, k2) <= byte_offset(s, k),
        forall|x: int| #[trigger] is_boundary(s, x) && x <= b ==> x <= byte_offset(s, k),
{
    if k < s.len() {
        crate::text::lemma_offset_strict(s, k, s.len() as int);
    }
    assert forall|k2: int| 0 <= k2 <= s.len() && #[trigger] byte_offset(s, k2) <= b implies byte_offset(s, k2)
        <= byte_offset(s, k) by {
        if k2 > k {
            if k2 > k + 1 {
                crate::text::lemma_offset_strict(s, k + 1, k2);
            }
        } else if k2 < k {
            crate::text::lemma_offset_strict(s, k2, k);
        }
    }
    assert forall|x: int| #[trigger] is_boundary(s, x) && x <= b implies x <= byte_offset(s, k) by {
        let k2 = choose|k2: int| 0 <= k2 <= s.len() && byte_offset(s, k2) == x;
        assert(byte_offset(s, k2) <= b);
    }
}

/// The source text that a rebuild step stands for: the previous source it
/// reuses, or the text it parses.
pub open spec fn plan_source(p: BlockPlan, old: Seq<Seq<char>>) -> Seq<char> {
    match p {
        BlockPlan::Reuse(j) => old[j as int],
        BlockPlan::Parse(t) => t@,
    }
}

/// Rebuilding the blocks by the plan gives the same sources as parsing every
/// block afresh: each step stands for exactly the joined lines of its block.
pub proof fn law_plan_is_full_rebuild(d: Seq<Seq<char>>, rs: Seq<(int, int)>, old: Seq<Seq<char>>, plan: Seq<BlockPlan>)
    requires
        old.len() <= usize::MAX,
        plan.len() == rs.len(),
        forall|i: int| 0 <= i < plan.len() ==> plan_ok(d, rs, old, i, #[trigger] plan[i]),
    ensures
        forall|i: int|
            0 <= i < plan.len() ==> plan_source(#[trigger] plan[i], old) == join_spec(d.subrange(rs[i].0, rs[i].1)),
{
    assert forall|i: int| 0 <= i < plan.len() implies plan_source(#[trigger] plan[i], old) == join_spec(
        d.subrange(rs[i].0, rs[i].1),
    ) by {
        assert(plan_ok(d, rs, old, i, plan[i]));
        match plan[i] {
            BlockPlan::Reuse(j) => {
                law_reuse_is_sound(d, rs, old, i, j);
            },
            BlockPlan::Parse(t) => {},
        }
    }
}

/// Starting to open or save a file, and the end of a save, change no
/// rendered block: the document, the raw region and the mode stay as they
/// were.
pub proof fn law_file_requests_keep_blocks(o: Editor, cmd: Command, n: Editor, reply: Reply)
    requires
        o.wf(),
        cmd is Open || cmd is Save || cmd is Saved,
        command_post(o, cmd, n, reply),
    ensures
        n.segments_spec() == o.segments_spec(),
{
}

/// Where `k >= 1` repetitions of a line-wise motion take the cursor's row:
/// `k` rows up or down (stopping at the document's edges), or the first or
/// last row.
proof fn lemma_linewise_target(d: Seq<Seq<char>>, m: Move, row: int, col: int, k: nat)
    requires
        d.len() >= 1,
        0 <= row < d.len(),
        linewise_spec(m),
        k >= 1,
    ensures
        moved_n(d, m, row, col, k).0 == match m {
            Move::Up => if row >= k { row - k } else { 0 },
            Move::Down => if row + k <= d.len() - 1 { row + k } else { d.len() - 1 },
            Move::DocStart => 0,
            _ => d.len() - 1,
        },
    decreases k,
{
    let p = moved_n(d, m, row, col, (k - 1) as nat);
    if k > 1 {
        lemma_linewise_target(d, m, row, col, (k - 1) as nat);
    } else {
        assert(p == (row, col));
    }
    assert(moved_n(d, m, row, col, k) == moved_spec(d, m, p.0, p.1));
}

/// An operator followed by a line-wise motion (`dj`, `dk`, `dG`, `dgg`, ...,
/// with a count) acts on exactly the rows from the cursor's row to the row
/// the motion would take the cursor to: those rows are yanked as lines into
/// the register, and a delete removes them (leaving one empty line when they
/// were the whole document), a change replaces them by one empty line, and a
/// yank leaves the document as it is.
pub proof fn law_linewise_operator_rows(o: Editor, op: Operator, m: Move, k: nat, n: Editor)
    requires
        o.wf(),
        linewise_spec(m),
        k >= 1,
        operator_motion_post(o, op, m, k, n),
    ensures
        ({
            let d = o.doc();
            let r = o.cursor_row();
            let t = moved_n(d, m, r, o.cursor_col as int, k).0;
            let a = if r <= t { r } else { t };
            let b = if r <= t { t } else { r };
            &&& 0 <= a <= r <= b < d.len()
            &&& n.vim.register.text@ == join_spec(d.subrange(a, b + 1))
            &&& n.vim.register.linewise
            &&& op == Operator::Yank ==> n.doc() == d
            &&& op == Operator::Delete && (a > 0 || b < d.len() - 1) ==> n.doc() == d.subrange(0, a) + d.subrange(
                b + 1,
                d.len() as int,
            )
            &&& op == Operator::Delete && a == 0 && b == d.len() - 1 ==> n.doc() == seq![Seq::<char>::empty()]
            &&& op == Operator::Change ==> n.doc() == d.subrange(0, a) + seq![Seq::<char>::empty()] + d.subrange(
                b + 1,
                d.len() as int,
            )
        }),
{
    let d = o.doc();
    let r = o.cursor_row();
    lemma_linewise_target(d, m, r, o.cursor_col as int, k);
    let t = moved_n(d, m, r, o.cursor_col as int, k).0;
    let a = if r <= t { r } else { t };
    let b = if r <= t { t } else { r };
    if op == Operator::Delete && a == 0 && b == d.len() - 1 {
        assert(d.subrange(0, a) + d.subrange(b + 1, d.len() as int) =~= Seq::<Seq<char>>::empty());
    }
}

/// The motion `^` (any number of times) keeps the cursor's row and puts it
/// on the line's first char that is not white space: every char before it
/// is white space. On a line of only white space it goes to column 0.
pub proof fn law_first_non_blank_motion(d: Seq<Seq<char>>, row: int, col: int, k: nat)
    requires
        0 <= row < d.len(),
        k >= 1,
    ensures
        ({
            let p = moved_n(d, Move::FirstNonBlank, row, col, k);
            let line = d[row];
            &&& p.0 == row
            &&& (exists|i: int| 0 <= i < line.len() && !is_ws(line[i])) ==> {
                &&& 0 <= p.1 < line.len()
                &&& !is_ws(line[p.1])
                &&& forall|j: int| 0 <= j < p.1 ==> is_ws(#[trigger] line[j])
            }
            &&& (forall|i: int| 0 <= i < line.len() ==> is_ws(#[trigger] line[i])) ==> p.1 == 0
        }),
    decreases k,
{
    let line = d[row];
    let q = moved_n(d, Move::FirstNonBlank, row, col, (k - 1) as nat);
    if k > 1 {
        law_first_non_blank_motion(d, row, col, (k - 1) as nat);
    } else {
        assert(q == (row, col));
    }
    assert(moved_n(d, Move::FirstNonBlank, row, col, k) == moved_spec(d, Move::FirstNonBlank, q.0, q.1));
    if exists|i: int| 0 <= i < line.len() && !is_ws(line[i]) {
        let i0 = choose|i: int| 0 <= i < line.len() && !is_ws(line[i]);
        crate::motion::lemma_first_non_blank_index(line, i0);
    } else {
        assert forall|i: int| 0 <= i < line.len() implies is_ws(#[trigger] line[i]) by {
            if !is_ws(line[i]) {
                assert(exists|i: int| 0 <= i < line.len() && !is_ws(line[i]));
            }
        }
    }
}

/// The key routing of the raw editor in Insert mode, in terms of where the
/// cursor stands (`ctx` being the editor's cursor context): Backspace merges
/// into the line above only at column 0 of the region's first line below
/// the document's first line; Delete merges the next line only at the end
/// of the region's last line above the document's last line; Enter splits
/// only a one-line region; the arrows leave the region only from its first
/// or last line and not past the document's edges; every other case is the
/// raw editor's own editing.
pub proof fn law_insert_key_routing(e: Editor, ctx: BindingContext, command: bool)
    requires
        e.wf(),
        ctx.multiline == (e.active_end - e.active_start > 1),
        ctx.at_editor_top == (e.cursor_line == 0),
        ctx.at_editor_bottom == (e.cursor_line + 1 >= e.active_end - e.active_start),
        ctx.at_line_start == (e.cursor_col == 0),
        ctx.at_line_end == (e.cursor_col >= e.doc()[e.cursor_row()].len()),
        ctx.at_doc_first == (e.active_start == 0),
        ctx.at_doc_last == (e.active_end >= e.doc().len()),
    ensures
        insert_binding_spec(EditKey::Backspace, command, ctx) == if e.cursor_line == 0 && e.cursor_col == 0
            && e.active_start > 0 {
            InsertBinding::MergeWithPrevious
        } else {
            InsertBinding::Default
        },
        insert_binding_spec(EditKey::Delete, command, ctx) == if e.cursor_row() == e.active_end - 1
            && e.cursor_col == e.doc()[e.cursor_row()].len() && e.active_end < e.doc().len() {
            InsertBinding::MergeWithNext
        } else {
            InsertBinding::Default
        },
        insert_binding_spec(EditKey::Enter, command, ctx) == if e.active_end == e.active_start + 1 {
            InsertBinding::SplitLine
        } else {
            InsertBinding::Default
        },
        insert_binding_spec(EditKey::ArrowUp, command, ctx) == if e.cursor_line == 0 && e.active_start > 0 {
            InsertBinding::MoveUp
        } else {
            InsertBinding::Default
        },
        insert_binding_spec(EditKey::ArrowDown, command, ctx) == if e.cursor_row() == e.active_end - 1
            && e.active_end < e.doc().len() {
            InsertBinding::MoveDown
        } else {
            InsertBinding::Default
        },
        insert_binding_spec(EditKey::Escape, command, ctx) == InsertBinding::Escape,
        insert_binding_spec(EditKey::PageUp, command, ctx) == if command {
            InsertBinding::JumpToStart
        } else {
            InsertBinding::PageUp
        },
        insert_binding_spec(EditKey::PageDown, command, ctx) == if command {
            InsertBinding::JumpToEnd
        } else {
            InsertBinding::PageDown
        },
        insert_binding_spec(EditKey::Home, command, ctx) == if command {
            InsertBinding::JumpToStart
        } else {
            InsertBinding::Default
        },
        insert_binding_spec(EditKey::End, command, ctx) == if command {
            InsertBinding::JumpToEnd
        } else {
            InsertBinding::Default
        },
        insert_binding_spec(EditKey::Other, command, ctx) == InsertBinding::Default,
{
}

/// A keyword char: a char that is not white space and is alphanumeric or
/// `_`.
pub open spec fn keyword_char(c: char) -> bool {
    !is_ws(c) && (alphanumeric(c) || c == '_')
}

/// Letters, digits and `_` form words together: every keyword char is of
/// the word class, so `w`, `e` and `b` never stop between two adjacent
/// keyword chars. From either of two adjacent keyword chars, `w` goes to the
/// same place and so does `e` (when a keyword char follows both); from just
/// after either of them, `b` goes to the same place.
pub proof fn law_keyword_chars_form_words(s: Seq<char>, i: int)
    requires
        0 <= i,
        i + 1 < s.len(),
        keyword_char(s[i]),
        keyword_char(s[i + 1]),
    ensures
        class_of(s[i]) == class_of(s[i + 1]),
        class_of(s[i]) == Class::Word,
        word_forward_spec(s, i) == word_forward_spec(s, i + 1),
        i + 2 < s.len() && keyword_char(s[i + 2]) ==> word_end_spec(s, i) == word_end_spec(s, i + 1),
        word_backward_spec(s, i + 2) == word_backward_spec(s, i + 1),
{
}

/// The run of pipe lines from `j`: where it ends, and that it is one.
proof fn lemma_pipe_run(ls: Seq<Seq<char>>, j: int)
    requires
        0 <= j <= ls.len(),
    ensures
        j <= pipe_run_end(ls, j) <= ls.len(),
        forall|i: int| j <= i < pipe_run_end(ls, j) ==> (#[trigger] ls[i]).contains('|'),
        pipe_run_end(ls, j) < ls.len() ==> !ls[pipe_run_end(ls, j)].contains('|'),
    decreases ls.len() - j,
{
    if j < ls.len() && ls[j].contains('|') {
        lemma_pipe_run(ls, j + 1);
    }
}

/// The first header row of `ls` from `from` on: a line with a pipe followed
/// by a delimiter row, with no such pair before it.
proof fn lemma_table_start(ls: Seq<Seq<char>>, from: int)
    requires
        0 <= from,
    ensures
        first_table_start(ls, from) matches Some(st) ==> {
            &&& from <= st && st + 1 < ls.len()
            &&& ls[st].contains('|') && is_delim(ls[st + 1])
            &&& forall|i: int| from <= i < st ==> !((#[trigger] ls[i]).contains('|') && is_delim(ls[i + 1]))
        },
        first_table_start(ls, from) is None ==> forall|i: int|
            from <= i && i + 1 < ls.len() ==> !((#[trigger] ls[i]).contains('|') && is_delim(ls[i + 1])),
    decreases ls.len() - from,
{
    if from + 1 < ls.len() && !(ls[from].contains('|') && is_delim(ls[from + 1])) {
        lemma_table_start(ls, from + 1);
    }
}

/// A table read from Markdown source is found at the first line with a
/// pipe that a delimiter row follows, and its body rows are exactly the
/// lines right after the delimiter row that contain a pipe, up to the first
/// line that does not (whatever their first char): one body row per such
/// line, holding that line's cells. Without such a pair there is no table.
pub proof fn law_table_rows(source: Seq<char>, t: ParsedTable)
    requires
        parsed_from(source, t),
    ensures
        ({
            let ls = lines_spec(source);
            exists|st: int|
                {
                    &&& 0 <= st && st + 1 < ls.len()
                    &&& #[trigger] ls[st].contains('|') && is_delim(ls[st + 1])
                    &&& forall|i: int| 0 <= i < st ==> !((#[trigger] ls[i]).contains('|') && is_delim(ls[i + 1]))
                    &&& st + 2 + t.body_rows@.len() <= ls.len()
                    &&& forall|k: int|
                        0 <= k < t.body_rows@.len() ==> (#[trigger] ls[st + 2 + k]).contains('|') && row_views(
                            t.body_rows@[k]@,
                        ) == cells_spec(ls[st + 2 + k])
                    &&& st + 2 + t.body_rows@.len() < ls.len() ==> !ls[st + 2 + t.body_rows@.len()].contains('|')
                    &&& row_views(t.header_cells@) == cells_spec(ls[st])
                }
        }),
{
    let ls = lines_spec(source);
    lemma_table_start(ls, 0);
    let st = first_table_start(ls, 0)->Some_0;
    lemma_pipe_run(ls, st + 2);
    let n = t.body_rows@.len();
    assert forall|k: int| 0 <= k < n implies (#[trigger] ls[st + 2 + k]).contains('|') && row_views(
        t.body_rows@[k]@,
    ) == cells_spec(ls[st + 2 + k]) by {
        assert(st + 2 <= st + 2 + k < pipe_run_end(ls, st + 2));
    }
    assert(ls[st].contains('|'));
}

/// Without a line with a pipe followed by a delimiter row, source text
/// holds no table.
pub proof fn law_no_table(source: Seq<char>)
    requires
        first_table_start(lines_spec(source), 0) is None,
    ensures
        forall|i: int|
            0 <= i && i + 1 < lines_spec(source).len() ==> !((#[trigger] lines_spec(source)[i]).contains('|')
                && is_delim(lines_spec(source)[i + 1])),
{
    lemma_table_start(lines_spec(source), 0);
}

/// Where `k >= 1` repetitions of a motion within the line take the cursor
/// from column `col` of row `row`: the row stays, and the column is that of
/// the motion repeated on the line.
#[verifier::rlimit(40)]
proof fn lemma_charwise_target(d: Seq<Seq<char>>, m: Move, row: int, col: int, k: nat)
    requires
        0 <= row < d.len(),
        0 <= col <= d[row].len(),
        !linewise_spec(m),
        k >= 1,
    ensures
        ({
            let line = d[row];
            let n = line.len() as int;
            let p = moved_n(d, m, row, col, k);
            &&& p.0 == row
            &&& 0 <= p.1 <= n
            &&& p.1 == match m {
                Move::Left => if col >= k { col - k } else { 0 },
                Move::Right => if n == 0 { 0 } else if col + k <= n - 1 { col + k } else { n - 1 },
                Move::WordFwd => word_forward_n(line, col, k),
                Move::WordBack => word_backward_n(line, col, k),
                Move::WordEnd => word_end_n(line, col, k),
                Move::LineStart => 0,
                Move::FirstNonBlank => first_non_blank_spec(line),
                _ => if n == 0 { 0 } else { n - 1 },
            }
        }),
    decreases k,
{
    let line = d[row];
    let q = moved_n(d, m, row, col, (k - 1) as nat);
    if k > 1 {
        lemma_charwise_target(d, m, row, col, (k - 1) as nat);
    } else {
        assert(q == (row, col));
        assert(word_forward_n(line, col, 0) == col);
        assert(word_backward_n(line, col, 0) == col);
        assert(word_end_n(line, col, 0) == col);
    }
    assert(q.0 == row && 0 <= q.1 <= line.len());
    assert(moved_n(d, m, row, col, k) == moved_spec(d, m, q.0, q.1));
    let p = moved_n(d, m, row, col, k);
    let n = line.len() as int;
    match m {
        Move::FirstNonBlank => {
            crate::motion::lemma_first_non_blank_bounds(line);
            assert(p.1 == first_non_blank_spec(line));
        },
        Move::WordFwd => {
            crate::motion::lemma_word_forward_bounds(line, q.1);
            assert(p.1 == word_forward_n(line, col, k));
        },
        Move::WordBack => {
            crate::motion::lemma_word_backward_bounds(line, q.1);
            assert(p.1 == word_backward_n(line, col, k));
        },
        Move::WordEnd => {
            crate::motion::lemma_word_end_bounds(line, q.1);
            assert(p.1 == word_end_n(line, col, k));
        },
        Move::Left => {
            assert(p.1 == if col >= k { col - k } else { 0 });
        },
        Move::Right => {
            assert(p.1 == if n == 0 { 0 } else if col + k <= n - 1 { col + k } else { n - 1 });
        },
        Move::LineStart => {
            assert(p.1 == 0);
        },
        Move::LineEnd => {
            assert(p.1 == if n == 0 { 0 } else { n - 1 });
        },
        _ => {},
    }
}

/// An operator followed by a motion within the line (`dh`, `dl`, `dw`,
/// `de`, `db`, `d0`, `d^`, `d$`, with a count) acts on the chars between the
/// cursor and where the motion takes it: up to the target for the motions
/// that stop before what they pass (`h`, `b`, `0`, `^`, `w`), through the
/// target char for `e` and `$`; `l` takes the count's chars from the cursor
/// (up to the line's end); `cw` on a word char acts like `ce`.
#[verifier::rlimit(40)]
pub proof fn law_charwise_operator_range(d: Seq<Seq<char>>, op: Operator, m: Move, row: int, col: int, k: nat)
    requires
        0 <= row < d.len(),
        0 <= col <= d[row].len(),
        !linewise_spec(m),
        k >= 1,
    ensures
        ({
            let line = d[row];
            let n = line.len() as int;
            let t = moved_n(d, m, row, col, k).1;
            let lo = if t <= col { t } else { col };
            let hi = if t <= col { col } else { t };
            let word_change = op == Operator::Change && col < n && !is_ws(line[col]);
            let r = char_range(line, op, m, col, k);
            &&& (m is Left || m is WordBack || m is LineStart || m is FirstNonBlank) ==> r == (lo, hi)
            &&& m is WordFwd && !word_change ==> r == (col, t)
            &&& (m is WordEnd || m is LineEnd) ==> r == (col, if t + 1 <= n { t + 1 } else { n })
            &&& m is WordFwd && word_change ==> ({
                let te = moved_n(d, Move::WordEnd, row, col, k).1;
                r == (col, if te + 1 <= n { te + 1 } else { n })
            })
            &&& m is Right ==> r == (col, if col + k <= n { col + k } else { n })
        }),
{
    let line = d[row];
    let n = line.len() as int;
    lemma_charwise_target(d, m, row, col, k);
    if m is WordBack {
        lemma_word_backward_n_le(line, col, k);
    }
    if m is WordFwd {
        let word_change = op == Operator::Change && col < n && !is_ws(line[col]);
        if word_change {
            lemma_charwise_target(d, Move::WordEnd, row, col, k);
        }
    }
}

/// `b` repeated never moves right.
proof fn lemma_word_backward_n_le(line: Seq<char>, col: int, k: nat)
    requires
        0 <= col <= line.len(),
    ensures
        0 <= word_backward_n(line, col, k) <= col,
    decreases k,
{
    if k > 0 {
        lemma_word_backward_n_le(line, col, (k - 1) as nat);
        crate::motion::lemma_word_backward_bounds(line, word_backward_n(line, col, (k - 1) as nat));
    }
}

} // verus!
