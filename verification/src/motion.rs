//! Pure helpers behind the Vim motions: character classes, word motions,
//! first non-blank, position ordering and pattern search.

use vstd::prelude::*;
use crate::text::{vec_views, byte_len, byte_offset, is_snap, lemma_snap_of_offset, lemma_snap_unique, is_ws, is_whitespace, lemma_byte_len_monotone, lemma_byte_offset_take, lemma_take_full, offset_of, to_chars};

verus! {

/// Character classes used for word motions.
#[derive(Debug, Clone, Copy, PartialEq, Eq, Structural)]
pub enum Class {
    Space,
    Word,
    Punct,
}

/// What `char::is_alphanumeric` returns for `c` (the Unicode `Alphabetic` or
/// `Numeric` properties).
pub uninterp spec fn alphanumeric(c: char) -> bool;

/// `char::is_alphanumeric`.
#[verifier::external_body]
fn is_alphanumeric(c: char) -> (r: bool)
    ensures
        r == alphanumeric(c),
{
    c.is_alphanumeric()
}

/// The class of `c`: white space, keyword char (alphanumeric or `_`), or
/// punctuation.
pub open spec fn class_of(c: char) -> Class {
    if is_ws(c) {
        Class::Space
    } else if alphanumeric(c) || c == '_' {
        Class::Word
    } else {
        Class::Punct
    }
}

/// Classify a character for word motions.
pub fn class(c: char) -> (r: Class)
    ensures
        r == class_of(c),
{
    if is_whitespace(c) {
        Class::Space
    } else if is_alphanumeric(c) || c == '_' {
        Class::Word
    } else {
        Class::Punct
    }
}

/// First index `j >= i` that is the end of `s` or holds a char not of class `c`.
pub open spec fn skip_class(s: Seq<char>, i: int, c: Class) -> int
    decreases s.len() - i,
{
    if i < 0 || i >= s.len() || class_of(s[i]) != c {
        i
    } else {
        skip_class(s, i + 1, c)
    }
}

/// Walk back from `i` over chars of class `c` before it: the start of the run
/// of class `c` that ends just before `i`.
pub open spec fn back_start(s: Seq<char>, i: int, c: Class) -> int
    decreases i,
{
    if i > 0 && i <= s.len() && class_of(s[i - 1]) == c {
        back_start(s, i - 1, c)
    } else {
        i
    }
}

/// Walk back from `i` over white space, stopping at index 0.
pub open spec fn skip_back_space(s: Seq<char>, i: int) -> int
    decreases i,
{
    if i > 0 && i < s.len() && class_of(s[i]) == Class::Space {
        skip_back_space(s, i - 1)
    } else {
        i
    }
}

/// `w`: the rest of the word under `col` (if any), then the white space after
/// it; the end of the line when `col` is past it.
pub open spec fn word_forward_spec(s: Seq<char>, col: int) -> int {
    if col >= s.len() {
        s.len() as int
    } else {
        let j = if class_of(s[col]) != Class::Space {
            skip_class(s, col, class_of(s[col]))
        } else {
            col
        };
        skip_class(s, j, Class::Space)
    }
}

/// `b`: the start of the word before `col`, skipping white space; 0 when only
/// white space precedes it.
pub open spec fn word_backward_spec(s: Seq<char>, col: int) -> int {
    if col <= 0 {
        0
    } else {
        let i = skip_back_space(s, col - 1);
        if class_of(s[i]) == Class::Space {
            0
        } else {
            back_start(s, i, class_of(s[i]))
        }
    }
}

/// `e`: the last char of the next word after `col` (the last char of the line
/// when no word follows).
pub open spec fn word_end_spec(s: Seq<char>, col: int) -> int {
    if s.len() == 0 {
        0
    } else if col + 1 >= s.len() {
        s.len() - 1
    } else {
        let j = skip_class(s, col + 1, Class::Space);
        if j >= s.len() {
            s.len() - 1
        } else {
            skip_class(s, j, class_of(s[j])) - 1
        }
    }
}

proof fn lemma_skip_class_bounds(s: Seq<char>, i: int, c: Class)
    requires
        0 <= i <= s.len(),
    ensures
        i <= skip_class(s, i, c) <= s.len(),
        skip_class(s, i, c) < s.len() ==> class_of(s[skip_class(s, i, c)]) != c,
        forall|k: int| i <= k < skip_class(s, i, c) ==> class_of(#[trigger] s[k]) == c,
    decreases s.len() - i,
{
    if i < s.len() && class_of(s[i]) == c {
        lemma_skip_class_bounds(s, i + 1, c);
    }
}

proof fn lemma_back_start_bounds(s: Seq<char>, i: int, c: Class)
    requires
        0 <= i <= s.len(),
    ensures
        0 <= back_start(s, i, c) <= i,
    decreases i,
{
    if i > 0 && class_of(s[i - 1]) == c {
        lemma_back_start_bounds(s, i - 1, c);
    }
}

proof fn lemma_skip_back_space_bounds(s: Seq<char>, i: int)
    requires
        0 <= i < s.len(),
    ensures
        0 <= skip_back_space(s, i) <= i,
    decreases i,
{
    if i > 0 && class_of(s[i]) == Class::Space {
        lemma_skip_back_space_bounds(s, i - 1);
    }
}

/// `first_non_blank_spec` is a char index of `s`, or 0.
pub proof fn lemma_first_non_blank_bounds(s: Seq<char>)
    ensures
        0 <= first_non_blank_spec(s),
        first_non_blank_spec(s) == 0 || first_non_blank_spec(s) < s.len(),
{
    if exists|i: int| 0 <= i < s.len() && !is_ws(s[i]) {
        let i0 = choose|i: int| 0 <= i < s.len() && !is_ws(s[i]);
        lemma_first_index(s, i0);
    }
}

/// Once any char of `s` is not white space, `first_non_blank_spec` is the
/// first such char.
pub proof fn lemma_first_non_blank_index(s: Seq<char>, i: int)
    requires
        0 <= i < s.len(),
        !is_ws(s[i]),
    ensures
        0 <= first_non_blank_spec(s) < s.len(),
        !is_ws(s[first_non_blank_spec(s)]),
        forall|j: int| 0 <= j < first_non_blank_spec(s) ==> is_ws(#[trigger] s[j]),
{
    lemma_first_index(s, i);
}

/// Some first non-blank index exists once any non-blank char does.
proof fn lemma_first_index(s: Seq<char>, i: int)
    requires
        0 <= i < s.len(),
        !is_ws(s[i]),
    ensures
        exists|k: int| 0 <= k < s.len() && !is_ws(s[k]) && forall|j: int| 0 <= j < k ==> is_ws(#[trigger] s[j]),
    decreases i,
{
    if forall|j: int| 0 <= j < i ==> is_ws(#[trigger] s[j]) {
        assert(0 <= i < s.len() && !is_ws(s[i]) && forall|j: int| 0 <= j < i ==> is_ws(#[trigger] s[j]));
    } else {
        let j0 = choose|j: int| 0 <= j < i && !is_ws(#[trigger] s[j]);
        lemma_first_index(s, j0);
    }
}

/// `w` from `col >= 0` lands in `0..=len`.
pub proof fn lemma_word_forward_bounds(s: Seq<char>, col: int)
    requires
        col >= 0,
    ensures
        0 <= word_forward_spec(s, col) <= s.len(),
{
    if col < s.len() {
        lemma_skip_class_bounds(s, col, class_of(s[col]));
        let j = if class_of(s[col]) != Class::Space {
            skip_class(s, col, class_of(s[col]))
        } else {
            col
        };
        lemma_skip_class_bounds(s, j, Class::Space);
    }
}

/// `b` from `0 <= col <= len` lands in `0..=col`.
pub proof fn lemma_word_backward_bounds(s: Seq<char>, col: int)
    requires
        0 <= col <= s.len(),
    ensures
        0 <= word_backward_spec(s, col) <= col,
{
    if col > 0 {
        lemma_skip_back_space_bounds(s, col - 1);
        let i = skip_back_space(s, col - 1);
        lemma_back_start_bounds(s, i, class_of(s[i]));
    }
}

/// `e` lands on a char of a non-empty line, else 0.
pub proof fn lemma_word_end_bounds(s: Seq<char>, col: int)
    requires
        col >= 0,
    ensures
        0 <= word_end_spec(s, col),
        word_end_spec(s, col) == 0 || word_end_spec(s, col) < s.len(),
{
    if s.len() > 0 && col + 1 < s.len() {
        lemma_skip_class_bounds(s, col + 1, Class::Space);
        let j = skip_class(s, col + 1, Class::Space);
        if j < s.len() {
            lemma_skip_class_bounds(s, j, class_of(s[j]));
        }
    }
}

/// Exec form of [`skip_class`].
fn skip_class_exec(s: &[char], i: usize, c: Class) -> (r: usize)
    requires
        i <= s@.len(),
    ensures
        r == skip_class(s@, i as int, c),
{
    let mut j = i;
    while j < s.len() && class(s[j]) == c
        invariant
            i <= j <= s@.len(),
            skip_class(s@, j as int, c) == skip_class(s@, i as int, c),
        decreases s@.len() - j,
    {
        j += 1;
    }
    j
}

/// Char index of the first non-blank char of `s`, or 0 if it is all blank.
pub open spec fn first_non_blank_spec(s: Seq<char>) -> int {
    if exists|i: int| 0 <= i < s.len() && !is_ws(s[i]) {
        choose|i: int|
            0 <= i < s.len() && !is_ws(s[i]) && forall|j: int| 0 <= j < i ==> is_ws(#[trigger] s[j])
    } else {
        0
    }
}

/// Exec form of [`first_non_blank`] on chars.
pub fn first_non_blank_chars(s: &[char]) -> (r: usize)
    ensures
        r == first_non_blank_spec(s@),
        r == 0 || r < s@.len(),
{
    let mut i: usize = 0;
    while i < s.len()
        invariant
            i <= s@.len(),
            forall|j: int| 0 <= j < i ==> is_ws(#[trigger] s@[j]),
        decreases s@.len() - i,
    {
        if !is_whitespace(s[i]) {
            proof {
                let w = choose|k: int|
                    0 <= k < s@.len() && !is_ws(s@[k]) && forall|j: int|
                        0 <= j < k ==> is_ws(#[trigger] s@[j]);
                assert(0 <= w < s@.len() && !is_ws(s@[w]) && forall|j: int|
                    0 <= j < w ==> is_ws(#[trigger] s@[j])) by {
                    assert(0 <= i < s@.len() && !is_ws(s@[i as int]) && forall|j: int|
                        0 <= j < i ==> is_ws(#[trigger] s@[j]));
                }
                if w < i {
                    assert(is_ws(s@[w]));
                }
                if w > i {
                    assert(is_ws(s@[i as int]));
                }
            }
            return i;
        }
        i += 1;
    }
    0
}

/// Char index of the first non-blank character, or 0 if the line is all blank.
pub fn first_non_blank(line: &str) -> (r: usize)
    ensures
        r == first_non_blank_spec(line@),
{
    let chars = to_chars(line);
    first_non_blank_chars(chars.as_slice())
}

/// `w` on chars.
pub fn word_forward_chars(s: &[char], col: usize) -> (r: usize)
    ensures
        r == word_forward_spec(s@, col as int),
        col <= r || col > s@.len(),
        r <= s@.len(),
{
    let n = s.len();
    if col >= n {
        return n;
    }
    let start = class(s[col]);
    let j = if start != Class::Space {
        skip_class_exec(s, col, start)
    } else {
        col
    };
    proof {
        lemma_skip_class_bounds(s@, col as int, start);
    }
    let r = skip_class_exec(s, j, Class::Space);
    proof {
        lemma_skip_class_bounds(s@, j as int, Class::Space);
    }
    r
}

/// `w`: char index of the start of the next word (clamps to the line length).
pub fn word_forward(line: &str, col: usize) -> (r: usize)
    ensures
        r == word_forward_spec(line@, col as int),
{
    let chars = to_chars(line);
    word_forward_chars(chars.as_slice(), col)
}

/// `b` on chars.
pub fn word_backward_chars(s: &[char], col: usize) -> (r: usize)
    requires
        col <= s@.len(),
    ensures
        r == word_backward_spec(s@, col as int),
        r <= col,
{
    if col == 0 {
        return 0;
    }
    let mut i = col - 1;
    while i > 0 && class(s[i]) == Class::Space
        invariant
            i < col <= s@.len(),
            skip_back_space(s@, i as int) == skip_back_space(s@, col - 1),
        decreases i,
    {
        i -= 1;
    }
    let c = class(s[i]);
    if c == Class::Space {
        return 0;
    }
    let ghost i0 = i;
    while i > 0 && class(s[i - 1]) == c
        invariant
            i <= i0 < col <= s@.len(),
            back_start(s@, i as int, c) == back_start(s@, i0 as int, c),
        decreases i,
    {
        i -= 1;
    }
    i
}

/// `b`: char index of the start of the current/previous word.
pub fn word_backward(line: &str, col: usize) -> (r: usize)
    requires
        col <= line@.len(),
    ensures
        r == word_backward_spec(line@, col as int),
{
    let chars = to_chars(line);
    word_backward_chars(chars.as_slice(), col)
}

/// `e` on chars.
pub fn word_end_chars(s: &[char], col: usize) -> (r: usize)
    ensures
        r == word_end_spec(s@, col as int),
        r == 0 || r < s@.len(),
{
    let n = s.len();
    if n == 0 {
        return 0;
    }
    if col >= n - 1 {
        return n - 1;
    }
    let j = skip_class_exec(s, col + 1, Class::Space);
    proof {
        lemma_skip_class_bounds(s@, col + 1, Class::Space);
    }
    if j >= n {
        return n - 1;
    }
    let c = class(s[j]);
    let mut i = j;
    while i + 1 < n && class(s[i + 1]) == c
        invariant
            j <= i < n == s@.len(),
            skip_class(s@, i + 1, c) == skip_class(s@, j as int, c),
        decreases n - i,
    {
        i += 1;
    }
    i
}

/// `e`: char index of the end of the next word.
pub fn word_end(line: &str, col: usize) -> (r: usize)
    ensures
        r == word_end_spec(line@, col as int),
{
    let chars = to_chars(line);
    word_end_chars(chars.as_slice(), col)
}

/// `a` comes before or at `b` in document order.
pub open spec fn pos_le(a: (usize, usize), b: (usize, usize)) -> bool {
    a.0 < b.0 || (a.0 == b.0 && a.1 <= b.1)
}

/// Order two `(row, col)` positions so the earlier one comes first.
pub fn order_pos(a: (usize, usize), b: (usize, usize)) -> (r: ((usize, usize), (usize, usize)))
    ensures
        r == (if pos_le(a, b) {
            (a, b)
        } else {
            (b, a)
        }),
        pos_le(r.0, r.1),
{
    if a.0 < b.0 || (a.0 == b.0 && a.1 <= b.1) {
        (a, b)
    } else {
        (b, a)
    }
}

/// `pat` occurs in `line` starting at char index `k`.
pub open spec fn occurs_at(line: Seq<char>, k: int, pat: Seq<char>) -> bool {
    0 <= k && k + pat.len() <= line.len() && line.subrange(k, k + pat.len()) == pat
}

/// `pat` occurs in `lines` at row `r`, char index `k`.
pub open spec fn is_match(lines: Seq<Seq<char>>, r: int, k: int, pat: Seq<char>) -> bool {
    0 <= r < lines.len() && occurs_at(lines[r], k, pat)
}

/// `(r1, k1)` comes strictly before `(r2, k2)` in document order.
pub open spec fn pos_lt(r1: int, k1: int, r2: int, k2: int) -> bool {
    r1 < r2 || (r1 == r2 && k1 < k2)
}

/// The result of searching `lines` for `pat` from `(row, col)` (char
/// coordinates, `col` clamped to the line): forward, the first match after the
/// cursor, wrapping to the first match of the document; backward, the last
/// match before the cursor, wrapping to the last match of the document.
pub open spec fn search_ok(
    lines: Seq<Seq<char>>,
    row: int,
    col: int,
    pat: Seq<char>,
    forward: bool,
    res: Option<(usize, usize)>,
) -> bool {
    let c0 = if col < lines[row].len() {
        col
    } else {
        lines[row].len() as int
    };
    match res {
        None => pat.len() == 0 || forall|r: int, k: int| !is_match(lines, r, k, pat),
        Some((mr, mk)) => {
            let (mr, mk) = (mr as int, mk as int);
            &&& pat.len() > 0
            &&& is_match(lines, mr, mk, pat)
            &&& if forward {
                if exists|r: int, k: int| is_match(lines, r, k, pat) && pos_lt(row, c0, r, k) {
                    &&& pos_lt(row, c0, mr, mk)
                    &&& forall|r: int, k: int|
                        is_match(lines, r, k, pat) && pos_lt(row, c0, r, k) ==> !pos_lt(
                            r,
                            k,
                            mr,
                            mk,
                        )
                } else {
                    forall|r: int, k: int| is_match(lines, r, k, pat) ==> !pos_lt(r, k, mr, mk)
                }
            } else {
                if exists|r: int, k: int| is_match(lines, r, k, pat) && pos_lt(r, k, row, c0) {
                    &&& pos_lt(mr, mk, row, c0)
                    &&& forall|r: int, k: int|
                        is_match(lines, r, k, pat) && pos_lt(r, k, row, c0) ==> !pos_lt(
                            mr,
                            mk,
                            r,
                            k,
                        )
                } else {
                    forall|r: int, k: int| is_match(lines, r, k, pat) ==> !pos_lt(mr, mk, r, k)
                }
            }
        },
    }
}

/// Whether `pat` occurs in `line` at char index `k`.
fn occurs_at_exec(line: &[char], k: usize, pat: &[char]) -> (r: bool)
    ensures
        r == occurs_at(line@, k as int, pat@),
{
    if k > line.len() || pat.len() > line.len() - k {
        return false;
    }
    let mut i: usize = 0;
    while i < pat.len()
        invariant
            k + pat@.len() <= line@.len(),
            i <= pat@.len(),
            k + i <= line.len(),
            forall|j: int| 0 <= j < i ==> line@[k + j] == pat@[j],
        decreases pat@.len() - i,
    {
        if line[k + i] != pat[i] {
            assert(line@.subrange(k as int, k + pat@.len())[i as int] != pat@[i as int]);
            return false;
        }
        i += 1;
    }
    assert(line@.subrange(k as int, k + pat@.len()) =~= pat@);
    true
}

/// Find the next occurrence of `pat` from `(row, col)` (char coordinates),
/// wrapping around the document. Returns the match's `(row, char index)`.
pub fn find_match_chars(lines: &Vec<Vec<char>>, row: usize, col: usize, pat: &[char], forward: bool) -> (res: Option<(usize, usize)>)
    requires
        row < lines@.len(),
    ensures
        search_ok(vec_views(lines@), row as int, col as int, pat@, forward, res),
{
    let ghost ls = vec_views(lines@);
    if pat.len() == 0 {
        return None;
    }
    let c0 = if col < lines[row].len() {
        col
    } else {
        lines[row].len()
    };
    let mut first: Option<(usize, usize)> = None;
    let mut last: Option<(usize, usize)> = None;
    let mut last_before: Option<(usize, usize)> = None;
    let mut r: usize = 0;
    while r < lines.len()
        invariant
            ls == vec_views(lines@),
            row < lines@.len(),
            pat@.len() > 0,
            c0 == (if col < ls[row as int].len() { col as int } else { ls[row as int].len() as int }),
            r <= lines@.len(),
            // matches seen so far: all rows before `r`
            forward ==> forall|r2: int, k2: int| #[trigger] is_match(ls, r2, k2, pat@) && r2 < r ==> !pos_lt(row as int, c0 as int, r2, k2),
            first is None ==> forall|r2: int, k2: int| #[trigger] is_match(ls, r2, k2, pat@) ==> r2 >= r,
            first matches Some(p) ==> is_match(ls, p.0 as int, p.1 as int, pat@) && p.0 < r && forall|r2: int, k2: int| #[trigger] is_match(ls, r2, k2, pat@) ==> !pos_lt(r2, k2, p.0 as int, p.1 as int),
            last is None ==> forall|r2: int, k2: int| #[trigger] is_match(ls, r2, k2, pat@) ==> r2 >= r,
            last matches Some(p) ==> is_match(ls, p.0 as int, p.1 as int, pat@) && p.0 < r && forall|r2: int, k2: int| #[trigger] is_match(ls, r2, k2, pat@) && r2 < r ==> !pos_lt(p.0 as int, p.1 as int, r2, k2),
            last_before is None ==> forall|r2: int, k2: int| #[trigger] is_match(ls, r2, k2, pat@) && r2 < r ==> !pos_lt(r2, k2, row as int, c0 as int),
            last_before matches Some(p) ==> is_match(ls, p.0 as int, p.1 as int, pat@) && pos_lt(p.0 as int, p.1 as int, row as int, c0 as int) && forall|r2: int, k2: int| #[trigger] is_match(ls, r2, k2, pat@) && r2 < r && pos_lt(r2, k2, row as int, c0 as int) ==> !pos_lt(p.0 as int, p.1 as int, r2, k2),
        decreases lines@.len() - r,
    {
        let line = &lines[r];
        assert(ls[r as int] == line@);
        let mut k: usize = 0;
        while k < line.len()
            invariant
                ls == vec_views(lines@),
                row < lines@.len(),
                r < lines@.len(),
                ls[r as int] == line@,
                pat@.len() > 0,
                c0 == (if col < ls[row as int].len() { col as int } else { ls[row as int].len() as int }),
                k <= line@.len(),
                forward ==> forall|r2: int, k2: int| #[trigger] is_match(ls, r2, k2, pat@) && (r2 < r || (r2 == r && k2 < k)) ==> !pos_lt(row as int, c0 as int, r2, k2),
                first is None ==> forall|r2: int, k2: int| #[trigger] is_match(ls, r2, k2, pat@) ==> pos_lt(r as int, k as int - 1, r2, k2),
                first matches Some(p) ==> is_match(ls, p.0 as int, p.1 as int, pat@) && pos_lt(p.0 as int, p.1 as int, r as int, k as int) && forall|r2: int, k2: int| #[trigger] is_match(ls, r2, k2, pat@) ==> !pos_lt(r2, k2, p.0 as int, p.1 as int),
                last is None ==> forall|r2: int, k2: int| #[trigger] is_match(ls, r2, k2, pat@) ==> pos_lt(r as int, k as int - 1, r2, k2),
                last matches Some(p) ==> is_match(ls, p.0 as int, p.1 as int, pat@) && pos_lt(p.0 as int, p.1 as int, r as int, k as int) && forall|r2: int, k2: int| #[trigger] is_match(ls, r2, k2, pat@) && pos_lt(r2, k2, r as int, k as int) ==> !pos_lt(p.0 as int, p.1 as int, r2, k2),
                last_before is None ==> forall|r2: int, k2: int| #[trigger] is_match(ls, r2, k2, pat@) && pos_lt(r2, k2, r as int, k as int) ==> !pos_lt(r2, k2, row as int, c0 as int),
                last_before matches Some(p) ==> is_match(ls, p.0 as int, p.1 as int, pat@) && pos_lt(p.0 as int, p.1 as int, row as int, c0 as int) && forall|r2: int, k2: int| #[trigger] is_match(ls, r2, k2, pat@) && pos_lt(r2, k2, r as int, k as int) && pos_lt(r2, k2, row as int, c0 as int) ==> !pos_lt(p.0 as int, p.1 as int, r2, k2),
            decreases line@.len() - k,
        {
            if occurs_at_exec(line.as_slice(), k, pat) {
                assert(is_match(ls, r as int, k as int, pat@));
                let after = r > row || (r == row && k > c0);
                if forward && after {
                    return Some((r, k));
                }
                if first.is_none() {
                    first = Some((r, k));
                }
                last = Some((r, k));
                if !after {
                    if r < row || k < c0 {
                        last_before = Some((r, k));
                    }
                }
            }
            k += 1;
        }
        proof {
            assert forall|r2: int, k2: int| #[trigger] is_match(ls, r2, k2, pat@) && r2 == r implies k2 < k by {}
        }
        r += 1;
    }
    if forward {
        first
    } else {
        match last_before {
            Some(p) => Some(p),
            None => last,
        }
    }
}

/// The char index whose byte offset is `byte`, snapped down to a char
/// boundary of `s`.
pub open spec fn snap_index(s: Seq<char>, byte: int) -> usize {
    choose|k: usize| is_snap(s, byte, k as int)
}

pub proof fn lemma_snap_index(s: Seq<char>, byte: int, k: int)
    requires
        is_snap(s, byte, k),
        k <= usize::MAX,
    ensures
        snap_index(s, byte) == k,
{
    let kk = k as usize;
    assert(is_snap(s, byte, kk as int));
    let c = snap_index(s, byte);
    lemma_snap_unique(s, byte, c as int, k);
}

/// The char views of `lines`.
pub open spec fn string_views(lines: Seq<String>) -> Seq<Seq<char>> {
    lines.map_values(|l: String| l@)
}

/// The chars of each line of `lines`.
pub fn lines_to_chars(lines: &[String]) -> (r: Vec<Vec<char>>)
    ensures
        vec_views(r@) == string_views(lines@),
{
    let mut out: Vec<Vec<char>> = Vec::new();
    let mut i: usize = 0;
    while i < lines.len()
        invariant
            i <= lines@.len(),
            out@.len() == i,
            vec_views(out@) == string_views(lines@).take(i as int),
        decreases lines@.len() - i,
    {
        let chars = to_chars(lines[i].as_str());
        let ghost prev = out@;
        let ghost cv = chars@;
        assert(cv == lines@[i as int]@);
        out.push(chars);
        assert(prev.len() == i);
        assert(out@.len() == i + 1);
        assert(vec_views(prev).len() == i);
        assert(vec_views(out@).len() == i + 1);
        assert forall|j: int| 0 <= j < i + 1 implies #[trigger] vec_views(out@)[j] == string_views(lines@).take(i + 1)[j] by {
            if j < i {
                assert(vec_views(prev)[j] == string_views(lines@).take(i as int)[j]);
                assert(out@[j] == prev[j]);
            } else {
                assert(out@[j]@ == cv);
            }
        }
        assert(vec_views(out@) =~= string_views(lines@).take(i + 1));
        i += 1;
    }
    assert(string_views(lines@).take(i as int) =~= string_views(lines@));
    out
}

/// Find the next occurrence of `pattern` from `(row, col)` (`col` a char
/// index), wrapping around the document. Returns the match's
/// `(row, byte_col)`.
pub fn find_match(lines: &[String], row: usize, col: usize, pattern: &str, forward: bool) -> (res: Option<(usize, usize)>)
    requires
        row < lines@.len(),
        forall|i: int| 0 <= i < lines@.len() ==> byte_len(#[trigger] lines@[i]@) <= usize::MAX,
    ensures
        res is None ==> search_ok(string_views(lines@), row as int, col as int, pattern@, forward, None),
        res matches Some((r, b)) ==> r < lines@.len() && search_ok(
            string_views(lines@),
            row as int,
            col as int,
            pattern@,
            forward,
            Some((r, snap_index(lines@[r as int]@, b as int))),
        ) && b == byte_offset(lines@[r as int]@, snap_index(lines@[r as int]@, b as int) as int),
{
    let chars = lines_to_chars(lines);
    let pat = to_chars(pattern);
    let ps = pat.as_slice();
    let found = find_match_chars(&chars, row, col, ps, forward);
    assert(vec_views(chars@) == string_views(lines@));
    assert(ps@ == pattern@);
    match found {
        Option::None => {
            assert(found is None);
            Option::None
        },
        Some((r, k)) => {
            assert(vec_views(chars@)[r as int] == chars@[r as int]@);
            let off = offset_of(chars[r].as_slice(), k);
            proof {
                let l = lines@[r as int]@;
                assert(l == chars@[r as int]@);
                assert(byte_len(l) <= usize::MAX);
                if k < l.len() {
                    lemma_byte_offset_take(l, k as int);
                    lemma_byte_len_monotone(l, k as int, l.len() as int);
                    lemma_take_full(l);
                }
            }
            assert(search_ok(string_views(lines@), row as int, col as int, pattern@, forward, Some((r, k))));
            assert(off as usize == byte_offset(lines@[r as int]@, k as int));
            proof {
                let l = lines@[r as int]@;
                assert(k <= l.len()) by {
                    assert(is_match(string_views(lines@), r as int, k as int, pattern@));
                }
                lemma_snap_of_offset(l, k as int);
                lemma_snap_index(l, byte_offset(l, k as int) as int, k as int);
            }
            Some((r, off as usize))
        },
    }
}

} // verus!
