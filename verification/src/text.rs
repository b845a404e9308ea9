//! Character-level text utilities shared by the editor: Unicode white space,
//! UTF-8 byte widths and the conversions between char indices and byte
//! offsets.

use vstd::prelude::*;

verus! {

/// The Unicode `White_Space` property, as `char::is_whitespace` defines it.
pub open spec fn is_ws(c: char) -> bool {
    let u = c as u32;
    ||| 9 <= u <= 13
    ||| u == 32
    ||| u == 0x85
    ||| u == 0xA0
    ||| u == 0x1680
    ||| 0x2000 <= u <= 0x200A
    ||| u == 0x2028
    ||| u == 0x2029
    ||| u == 0x202F
    ||| u == 0x205F
    ||| u == 0x3000
}

/// Whether `c` is Unicode white space.
pub fn is_whitespace(c: char) -> (r: bool)
    ensures
        r == is_ws(c),
{
    let u = c as u32;
    (9 <= u && u <= 13) || u == 32 || u == 0x85 || u == 0xA0 || u == 0x1680 || (0x2000 <= u && u
        <= 0x200A) || u == 0x2028 || u == 0x2029 || u == 0x202F || u == 0x205F || u == 0x3000
}

/// Number of bytes of the UTF-8 encoding of `c`.
pub open spec fn width(c: char) -> nat {
    let u = c as u32;
    if u < 0x80 {
        1
    } else if u < 0x800 {
        2
    } else if u < 0x10000 {
        3
    } else {
        4
    }
}

/// Number of bytes of the UTF-8 encoding of `s`.
pub open spec fn byte_len(s: Seq<char>) -> nat
    decreases s.len(),
{
    if s.len() == 0 {
        0
    } else {
        byte_len(s.drop_last()) + width(s.last())
    }
}

/// Byte offset at which the char with index `k` starts (the whole length when
/// `k` is past the end).
pub open spec fn byte_offset(s: Seq<char>, k: int) -> nat {
    if k <= 0 {
        0
    } else if k >= s.len() {
        byte_len(s)
    } else {
        byte_len(s.take(k))
    }
}

/// `byte` is the offset at which some char starts, or the end of `s`.
pub open spec fn is_boundary(s: Seq<char>, byte: int) -> bool {
    exists|k: int| 0 <= k <= s.len() && byte_offset(s, k) == byte
}

/// `k` is the number of chars of `s` whose encoding lies wholly within the
/// first `byte` bytes: the char index reached by snapping the byte offset
/// `byte` down to a char boundary (and to the end of `s`).
pub open spec fn is_snap(s: Seq<char>, byte: int, k: int) -> bool {
    &&& 0 <= k <= s.len()
    &&& byte_offset(s, k) <= byte || k == 0
    &&& k < s.len() ==> byte_offset(s, k + 1) > byte
}

pub proof fn lemma_width_bounds(c: char)
    ensures
        1 <= width(c) <= 4,
{
}

pub proof fn lemma_byte_len_take_step(s: Seq<char>, k: int)
    requires
        0 <= k < s.len(),
    ensures
        byte_len(s.take(k + 1)) == byte_len(s.take(k)) + width(s[k]),
{
    assert(s.take(k + 1).drop_last() =~= s.take(k));
}

pub proof fn lemma_byte_len_monotone(s: Seq<char>, i: int, j: int)
    requires
        0 <= i <= j <= s.len(),
    ensures
        byte_len(s.take(i)) + (j - i) <= byte_len(s.take(j)),
        i < j ==> byte_len(s.take(i)) < byte_len(s.take(j)),
    decreases j - i,
{
    if i < j {
        lemma_byte_len_monotone(s, i, j - 1);
        lemma_byte_len_take_step(s, j - 1);
    }
}

pub proof fn lemma_take_full(s: Seq<char>)
    ensures
        s.take(s.len() as int) =~= s,
{
}

/// The offset of char `k` is the length of the first `k` chars.
pub proof fn lemma_byte_offset_take(s: Seq<char>, k: int)
    requires
        0 <= k <= s.len(),
    ensures
        byte_offset(s, k) == byte_len(s.take(k)),
{
    if k == 0 {
        assert(s.take(0) =~= Seq::<char>::empty());
    }
    if k == s.len() {
        lemma_take_full(s);
    }
}

/// Offsets grow strictly with the char index.
pub proof fn lemma_offset_strict(s: Seq<char>, i: int, j: int)
    requires
        0 <= i < j <= s.len(),
    ensures
        byte_offset(s, i) < byte_offset(s, j),
        byte_offset(s, i) + (j - i) <= byte_offset(s, j),
{
    lemma_byte_offset_take(s, i);
    lemma_byte_offset_take(s, j);
    lemma_byte_len_monotone(s, i, j);
}

/// At most one char index is the snap of a byte offset.
pub proof fn lemma_snap_unique(s: Seq<char>, byte: int, k1: int, k2: int)
    requires
        is_snap(s, byte, k1),
        is_snap(s, byte, k2),
    ensures
        k1 == k2,
{
    if k1 < k2 {
        lemma_offset_strict(s, k1 + 1, k2);
        if k1 + 1 < k2 {
            lemma_offset_strict(s, k1 + 1, k2);
        }
        assert(byte_offset(s, k2) <= byte);
        assert(false);
    } else if k2 < k1 {
        if k2 + 1 < k1 {
            lemma_offset_strict(s, k2 + 1, k1);
        }
        assert(false);
    }
}

/// The snap of the offset of a char index is that index.
pub proof fn lemma_snap_of_offset(s: Seq<char>, k: int)
    requires
        0 <= k <= s.len(),
    ensures
        is_snap(s, byte_offset(s, k) as int, k),
{
    if k < s.len() {
        lemma_offset_strict(s, k, k + 1);
    }
}

/// Byte offset of char index `k` in `s` (computed exactly, without overflow).
pub fn offset_of(s: &[char], k: usize) -> (r: u128)
    ensures
        r == byte_offset(s@, k as int),
{
    let n = s.len();
    let stop = if k < n {
        k
    } else {
        n
    };
    let mut acc: u128 = 0;
    let mut i: usize = 0;
    while i < stop
        invariant
            stop <= n == s@.len(),
            i <= stop,
            acc == byte_len(s@.take(i as int)),
            acc <= 4 * i,
        decreases stop - i,
    {
        proof {
            lemma_byte_len_take_step(s@, i as int);
            lemma_width_bounds(s@[i as int]);
        }
        acc = acc + char_width(s[i]) as u128;
        i += 1;
    }
    proof {
        lemma_byte_offset_take(s@, stop as int);
        if k >= n {
            lemma_take_full(s@);
        }
    }
    acc
}

/// Number of chars of `s` that end within the first `byte` bytes.
pub fn snap_to_char(s: &[char], byte: u128) -> (k: usize)
    ensures
        is_snap(s@, byte as int, k as int),
{
    let n = s.len();
    let mut acc: u128 = 0;
    let mut i: usize = 0;
    proof {
        lemma_byte_offset_take(s@, 0);
    }
    while i < n
        invariant
            n == s@.len(),
            i <= n,
            acc == byte_offset(s@, i as int),
            acc <= 4 * i,
            acc <= byte || i == 0,
        decreases n - i,
    {
        proof {
            lemma_byte_len_take_step(s@, i as int);
            lemma_width_bounds(s@[i as int]);
            lemma_byte_offset_take(s@, i as int);
            lemma_byte_offset_take(s@, i + 1);
        }
        let next = acc + char_width(s[i]) as u128;
        if next > byte {
            return i;
        }
        acc = next;
        i += 1;
    }
    i
}

/// Number of chars in `line`.
pub fn char_count(line: &str) -> (r: usize)
    ensures
        r == line@.len(),
{
    line.unicode_len()
}

/// Byte offset of char index `ch` in `line`, clamped to the line's length.
pub fn char_to_byte(line: &str, ch: usize) -> (r: usize)
    requires
        byte_len(line@) <= usize::MAX,
    ensures
        r == byte_offset(line@, ch as int),
{
    let chars = to_chars(line);
    let r = offset_of(chars.as_slice(), ch);
    proof {
        if ch < chars@.len() {
            lemma_byte_offset_take(line@, ch as int);
            lemma_byte_len_monotone(line@, ch as int, line@.len() as int);
            lemma_take_full(line@);
        }
    }
    r as usize
}

/// Char index of byte offset `byte` in `line`, snapped down to a char
/// boundary (and to the end of the line).
pub fn byte_to_char(line: &str, byte: usize) -> (r: usize)
    ensures
        is_snap(line@, byte as int, r as int),
{
    let chars = to_chars(line);
    snap_to_char(chars.as_slice(), byte as u128)
}

/// Clamp a byte `column` to the length of `line`, snapping to the nearest char
/// boundary at or below it.
pub fn clamp_column(line: &str, column: usize) -> (r: usize)
    ensures
        exists|k: int| is_snap(line@, column as int, k) && r == byte_offset(line@, k),
        r <= column,
{
    let chars = to_chars(line);
    let k = snap_to_char(chars.as_slice(), column as u128);
    let off = offset_of(chars.as_slice(), k);
    proof {
        if k > 0 {
        } else {
            lemma_byte_offset_take(line@, 0);
        }
    }
    off as usize
}

/// The chars of `s`, in order.
pub fn to_chars(s: &str) -> (r: Vec<char>)
    ensures
        r@ == s@,
{
    let n = s.unicode_len();
    let mut v: Vec<char> = Vec::new();
    let mut i: usize = 0;
    while i < n
        invariant
            n == s@.len(),
            i <= n,
            v@ == s@.take(i as int),
        decreases n - i,
    {
        let c = s.get_char(i);
        v.push(c);
        assert(s@.take(i + 1) =~= s@.take(i as int).push(c));
        i += 1;
    }
    assert(s@.take(n as int) =~= s@);
    v
}

/// Appends `c` to `s` (`String::push`).
#[verifier::external_body]
pub(crate) fn string_push(s: &mut String, c: char)
    ensures
        final(s)@ == old(s)@.push(c),
{
    s.push(c);
}

/// The string made of `chars`.
pub fn from_chars(chars: &[char]) -> (r: String)
    ensures
        r@ == chars@,
{
    let mut out = String::new();
    let mut i: usize = 0;
    while i < chars.len()
        invariant
            i <= chars@.len(),
            out@ == chars@.take(i as int),
        decreases chars@.len() - i,
    {
        string_push(&mut out, chars[i]);
        assert(chars@.take(i + 1) =~= chars@.take(i as int).push(chars@[i as int]));
        i += 1;
    }
    assert(chars@.take(chars@.len() as int) =~= chars@);
    out
}

/// UTF-8 width of `c`, in bytes.
pub fn char_width(c: char) -> (r: usize)
    ensures
        r == width(c),
{
    let u = c as u32;
    if u < 0x80 {
        1
    } else if u < 0x800 {
        2
    } else if u < 0x10000 {
        3
    } else {
        4
    }
}

/// The pieces of `s` between occurrences of `sep` (`str::split` with a char
/// pattern): one more piece than there are separators.
pub open spec fn split_seq(s: Seq<char>, sep: char) -> Seq<Seq<char>>
    decreases s.len(),
{
    if s.len() == 0 {
        seq![Seq::<char>::empty()]
    } else {
        let rest = split_seq(s.drop_first(), sep);
        if s[0] == sep {
            seq![Seq::<char>::empty()] + rest
        } else {
            rest.update(0, seq![s[0]] + rest[0])
        }
    }
}

pub proof fn lemma_split_nonempty(s: Seq<char>, sep: char)
    ensures
        split_seq(s, sep).len() >= 1,
    decreases s.len(),
{
    if s.len() > 0 {
        lemma_split_nonempty(s.drop_first(), sep);
    }
}

/// Appending a separator closes the last piece and opens an empty one.
pub proof fn lemma_split_push_sep(a: Seq<char>, sep: char)
    ensures
        split_seq(a.push(sep), sep) =~= split_seq(a, sep).push(Seq::<char>::empty()),
    decreases a.len(),
{
    lemma_split_nonempty(a, sep);
    let e = Seq::<char>::empty();
    assert(split_seq(e, sep) =~= seq![e]);
    if a.len() == 0 {
        assert(a.push(sep).drop_first() =~= e);
        assert(a.push(sep)[0] == sep);
        assert(split_seq(a.push(sep), sep) =~= seq![e] + split_seq(e, sep));
    } else {
        let a1 = a.drop_first();
        assert(a.push(sep).drop_first() =~= a1.push(sep));
        assert(a.push(sep)[0] == a[0]);
        lemma_split_push_sep(a1, sep);
        lemma_split_nonempty(a1, sep);
        let r = split_seq(a1, sep);
        let r2 = split_seq(a1.push(sep), sep);
        assert(r2 =~= r.push(e));
        if a[0] == sep {
            assert(split_seq(a.push(sep), sep) =~= seq![e] + r2);
            assert(split_seq(a, sep) =~= seq![e] + r);
        } else {
            assert(split_seq(a.push(sep), sep) =~= r2.update(0, seq![a[0]] + r2[0]));
            assert(split_seq(a, sep) =~= r.update(0, seq![a[0]] + r[0]));
        }
    }
}

/// Appending another char extends the last piece.
pub proof fn lemma_split_push_other(a: Seq<char>, c: char, sep: char)
    requires
        c != sep,
    ensures
        split_seq(a.push(c), sep).len() == split_seq(a, sep).len(),
        split_seq(a.push(c), sep) =~= split_seq(a, sep).update(
            split_seq(a, sep).len() - 1,
            split_seq(a, sep).last().push(c),
        ),
    decreases a.len(),
{
    lemma_split_nonempty(a, sep);
    let e = Seq::<char>::empty();
    assert(split_seq(e, sep) =~= seq![e]);
    if a.len() == 0 {
        assert(a.push(c).drop_first() =~= e);
        assert(a.push(c)[0] == c);
        assert(split_seq(a.push(c), sep) =~= seq![e].update(0, seq![c] + e));
        assert(seq![c] + e =~= e.push(c));
    } else {
        let a1 = a.drop_first();
        assert(a.push(c).drop_first() =~= a1.push(c));
        assert(a.push(c)[0] == a[0]);
        lemma_split_push_other(a1, c, sep);
        lemma_split_nonempty(a1, sep);
        let r = split_seq(a1, sep);
        let r2 = split_seq(a1.push(c), sep);
        assert(r2 =~= r.update(r.len() - 1, r.last().push(c)));
        if a[0] == sep {
            assert(split_seq(a.push(c), sep) =~= seq![e] + r2);
            assert(split_seq(a, sep) =~= seq![e] + r);
        } else {
            assert(split_seq(a.push(c), sep) =~= r2.update(0, seq![a[0]] + r2[0]));
            assert(split_seq(a, sep) =~= r.update(0, seq![a[0]] + r[0]));
            if r.len() == 1 {
                assert(seq![a[0]] + r[0].push(c) =~= (seq![a[0]] + r[0]).push(c));
            }
        }
    }
}

/// `s` contains no `sep`: it is a single piece.
pub proof fn lemma_split_no_sep(s: Seq<char>, sep: char)
    requires
        !s.contains(sep),
    ensures
        split_seq(s, sep) =~= seq![s],
    decreases s.len(),
{
    let e = Seq::<char>::empty();
    if s.len() == 0 {
        assert(split_seq(e, sep) =~= seq![e]);
        assert(s =~= e);
    } else {
        let s1 = s.drop_first();
        assert(!s1.contains(sep)) by {
            if s1.contains(sep) {
                let i = choose|i: int| 0 <= i < s1.len() && s1[i] == sep;
                assert(s[i + 1] == sep);
            }
        }
        lemma_split_no_sep(s1, sep);
        assert(seq![s[0]] + s1 =~= s);
        assert(s[0] != sep) by {
            if s[0] == sep {
                assert(s.contains(sep));
            }
        }
        assert(split_seq(s, sep) =~= split_seq(s1, sep).update(0, seq![s[0]] + split_seq(s1, sep)[0]));
    }
}

/// The pieces of `s` between occurrences of `sep`.
pub fn split_chars(s: &[char], sep: char) -> (r: Vec<Vec<char>>)
    ensures
        r@.len() == split_seq(s@, sep).len(),
        forall|i: int| 0 <= i < r@.len() ==> #[trigger] r@[i]@ == split_seq(s@, sep)[i],
{
    let mut done: Vec<Vec<char>> = Vec::new();
    let mut cur: Vec<char> = Vec::new();
    let mut i: usize = 0;
    assert(s@.take(0) =~= Seq::<char>::empty());
    while i < s.len()
        invariant
            i <= s@.len(),
            done@.len() + 1 == split_seq(s@.take(i as int), sep).len(),
            forall|j: int| 0 <= j < done@.len() ==> #[trigger] done@[j]@ == split_seq(s@.take(i as int), sep)[j],
            cur@ == split_seq(s@.take(i as int), sep).last(),
        decreases s@.len() - i,
    {
        let c = s[i];
        assert(s@.take(i + 1) =~= s@.take(i as int).push(c));
        if c == sep {
            proof {
                lemma_split_push_sep(s@.take(i as int), sep);
            }
            let ghost prev = done@;
            done.push(cur);
            cur = Vec::new();
            assert forall|j: int| 0 <= j < done@.len() implies #[trigger] done@[j]@ == split_seq(s@.take(i + 1), sep)[j] by {
                if j < prev.len() {
                    assert(done@[j] == prev[j]);
                }
            }
        } else {
            proof {
                lemma_split_push_other(s@.take(i as int), c, sep);
            }
            cur.push(c);
        }
        i += 1;
    }
    assert(s@.take(s@.len() as int) =~= s@);
    let ghost prev = done@;
    done.push(cur);
    assert forall|j: int| 0 <= j < done@.len() implies #[trigger] done@[j]@ == split_seq(s@, sep)[j] by {
        if j < prev.len() {
            assert(done@[j] == prev[j]);
        }
    }
    done
}

/// `s` with its leading white space removed.
pub open spec fn trim_start(s: Seq<char>) -> Seq<char>
    decreases s.len(),
{
    if s.len() > 0 && is_ws(s[0]) {
        trim_start(s.drop_first())
    } else {
        s
    }
}

/// `s` with its trailing white space removed.
pub open spec fn trim_end(s: Seq<char>) -> Seq<char>
    decreases s.len(),
{
    if s.len() > 0 && is_ws(s.last()) {
        trim_end(s.drop_last())
    } else {
        s
    }
}

/// `str::trim`: `s` without leading and trailing white space.
pub open spec fn trim(s: Seq<char>) -> Seq<char> {
    trim_end(trim_start(s))
}

/// Every char of `s` is white space (its trimmed form is empty).
pub open spec fn is_blank(s: Seq<char>) -> bool {
    forall|i: int| 0 <= i < s.len() ==> is_ws(#[trigger] s[i])
}

pub proof fn lemma_trim_start_skip(s: Seq<char>, i: int)
    requires
        0 <= i <= s.len(),
        forall|j: int| 0 <= j < i ==> is_ws(#[trigger] s[j]),
    ensures
        trim_start(s) == trim_start(s.skip(i)),
    decreases i,
{
    if i > 0 {
        assert(s.drop_first().skip(i - 1) =~= s.skip(i));
        lemma_trim_start_skip(s.drop_first(), i - 1);
    } else {
        assert(s.skip(0) =~= s);
    }
}

pub proof fn lemma_trim_end_take(s: Seq<char>, e: int)
    requires
        0 <= e <= s.len(),
        forall|j: int| e <= j < s.len() ==> is_ws(#[trigger] s[j]),
    ensures
        trim_end(s) == trim_end(s.take(e)),
    decreases s.len() - e,
{
    if e < s.len() {
        assert(s.drop_last().take(e) =~= s.take(e));
        lemma_trim_end_take(s.drop_last(), e);
    } else {
        assert(s.take(e) =~= s);
    }
}

/// Bounds `(start, end)` of `trim(s)` inside `s`.
pub fn trim_bounds(s: &[char]) -> (r: (usize, usize))
    ensures
        r.0 <= r.1 <= s@.len(),
        trim(s@) == s@.subrange(r.0 as int, r.1 as int),
        r.0 == r.1 <==> is_blank(s@),
        r.0 < r.1 ==> !is_ws(s@[r.0 as int]) && !is_ws(s@[r.1 - 1]),
        forall|j: int| 0 <= j < r.0 ==> is_ws(#[trigger] s@[j]),
        forall|j: int| r.1 <= j < s@.len() ==> is_ws(#[trigger] s@[j]),
{
    let n = s.len();
    let mut a: usize = 0;
    while a < n && is_whitespace(s[a])
        invariant
            a <= n == s@.len(),
            forall|j: int| 0 <= j < a ==> is_ws(#[trigger] s@[j]),
        decreases n - a,
    {
        a += 1;
    }
    let mut b: usize = n;
    while b > a && is_whitespace(s[b - 1])
        invariant
            a <= b <= n == s@.len(),
            forall|j: int| b <= j < n ==> is_ws(#[trigger] s@[j]),
        decreases b,
    {
        b -= 1;
    }
    proof {
        lemma_trim_start_skip(s@, a as int);
        let t = s@.skip(a as int);
        if a < n {
            assert(t[0] == s@[a as int]);
        } else {
            assert(t.len() == 0);
        }
        assert(trim_start(t) == t);
        lemma_trim_end_take(t, (b - a) as int);
        let u = t.take((b - a) as int);
        assert(u =~= s@.subrange(a as int, b as int));
        if b > a {
            assert(u.last() == s@[b - 1]);
        }
        assert(trim_end(u) == u);
        if a == b && a < n {
            assert(is_ws(s@[a as int]));
        }
    }
    (a, b)
}

/// `s` contains `c`.
pub fn contains_char(s: &[char], c: char) -> (r: bool)
    ensures
        r == s@.contains(c),
{
    let mut i: usize = 0;
    while i < s.len()
        invariant
            i <= s@.len(),
            forall|j: int| 0 <= j < i ==> s@[j] != c,
        decreases s@.len() - i,
    {
        if s[i] == c {
            assert(s@[i as int] == c);
            return true;
        }
        i += 1;
    }
    false
}

/// A copy of `s[from..to]`.
pub fn sub_chars(s: &[char], from: usize, to: usize) -> (r: Vec<char>)
    requires
        from <= to <= s@.len(),
    ensures
        r@ == s@.subrange(from as int, to as int),
{
    let mut out: Vec<char> = Vec::new();
    let mut i = from;
    while i < to
        invariant
            from <= i <= to <= s@.len(),
            out@ == s@.subrange(from as int, i as int),
        decreases to - i,
    {
        out.push(s[i]);
        assert(s@.subrange(from as int, i + 1) =~= s@.subrange(from as int, i as int).push(s@[i as int]));
        i += 1;
    }
    out
}

/// `p` without one trailing carriage return.
pub open spec fn strip_cr(p: Seq<char>) -> Seq<char> {
    if p.len() > 0 && p.last() == '\r' {
        p.drop_last()
    } else {
        p
    }
}

/// `str::lines`: the pieces between `\n`s, each piece that ended with `\n`
/// losing one trailing `\r`, and no final empty piece.
pub open spec fn lines_spec(s: Seq<char>) -> Seq<Seq<char>> {
    let parts = split_seq(s, '\n');
    let kept = if parts.last().len() == 0 {
        (parts.len() - 1) as nat
    } else {
        parts.len()
    };
    Seq::new(
        kept,
        |i: int|
            if i < parts.len() - 1 {
                strip_cr(parts[i])
            } else {
                parts[i]
            },
    )
}

/// The lines of `s` (`str::lines`).
pub fn lines_chars(s: &[char]) -> (r: Vec<Vec<char>>)
    ensures
        r@.len() == lines_spec(s@).len(),
        forall|i: int| 0 <= i < r@.len() ==> #[trigger] r@[i]@ == lines_spec(s@)[i],
{
    let parts = split_chars(s, '\n');
    proof {
        lemma_split_nonempty(s@, '\n');
    }
    let k = parts.len();
    let kept = if parts[k - 1].len() == 0 {
        k - 1
    } else {
        k
    };
    let mut out: Vec<Vec<char>> = Vec::new();
    let mut i: usize = 0;
    while i < kept
        invariant
            k == parts@.len() == split_seq(s@, '\n').len(),
            k >= 1,
            kept as int == lines_spec(s@).len(),
            kept <= k,
            forall|j: int| 0 <= j < parts@.len() ==> #[trigger] parts@[j]@ == split_seq(s@, '\n')[j],
            i <= kept,
            out@.len() == i,
            forall|j: int| 0 <= j < i ==> #[trigger] out@[j]@ == lines_spec(s@)[j],
        decreases kept - i,
    {
        let p = &parts[i];
        let piece = if i + 1 < k && p.len() > 0 && p[p.len() - 1] == '\r' {
            sub_chars(p.as_slice(), 0, p.len() - 1)
        } else {
            sub_chars(p.as_slice(), 0, p.len())
        };
        assert(p@.subrange(0, p@.len() as int) =~= p@);
        assert(p@.drop_last() =~= p@.subrange(0, p@.len() - 1));
        out.push(piece);
        i += 1;
    }
    out
}

/// `s` without its leading `c`s (`trim_start_matches(c)`).
pub open spec fn strip_start(s: Seq<char>, c: char) -> Seq<char>
    decreases s.len(),
{
    if s.len() > 0 && s[0] == c {
        strip_start(s.drop_first(), c)
    } else {
        s
    }
}

/// `s` without its trailing `c`s (`trim_end_matches(c)`).
pub open spec fn strip_end(s: Seq<char>, c: char) -> Seq<char>
    decreases s.len(),
{
    if s.len() > 0 && s.last() == c {
        strip_end(s.drop_last(), c)
    } else {
        s
    }
}

/// Bounds of `strip_end(strip_start(s[a..b], c), c)` inside `s`.
pub fn strip_bounds(s: &[char], a: usize, b: usize, c: char) -> (r: (usize, usize))
    requires
        a <= b <= s@.len(),
    ensures
        a <= r.0 <= r.1 <= b,
        strip_end(strip_start(s@.subrange(a as int, b as int), c), c) == s@.subrange(r.0 as int, r.1 as int),
{
    let mut i = a;
    while i < b && s[i] == c
        invariant
            a <= i <= b <= s@.len(),
            strip_start(s@.subrange(a as int, b as int), c) == strip_start(s@.subrange(i as int, b as int), c),
        decreases b - i,
    {
        assert(s@.subrange(i as int, b as int).drop_first() =~= s@.subrange(i + 1, b as int));
        i += 1;
    }
    let mut j = b;
    while j > i && s[j - 1] == c
        invariant
            a <= i <= j <= b <= s@.len(),
            strip_end(s@.subrange(i as int, b as int), c) == strip_end(s@.subrange(i as int, j as int), c),
        decreases j,
    {
        assert(s@.subrange(i as int, j as int).drop_last() =~= s@.subrange(i as int, j - 1));
        j -= 1;
    }
    (i, j)
}

/// The char views of a vector of char lines.
pub open spec fn vec_views(lines: Seq<Vec<char>>) -> Seq<Seq<char>> {
    lines.map_values(|l: Vec<char>| l@)
}

/// The lines `ls` joined with `\n` (`[..].join("\n")`).
pub open spec fn join_spec(ls: Seq<Seq<char>>) -> Seq<char>
    decreases ls.len(),
{
    if ls.len() == 0 {
        Seq::empty()
    } else if ls.len() == 1 {
        ls[0]
    } else {
        join_spec(ls.drop_last()) + seq!['\n'] + ls.last()
    }
}

/// No line of `ls` contains a newline.
pub open spec fn no_newlines(ls: Seq<Seq<char>>) -> bool {
    forall|i: int| 0 <= i < ls.len() ==> !(#[trigger] ls[i]).contains('\n')
}

/// Splitting `a`, a separator and a separator-free `b` gives the pieces of
/// `a` followed by `b`.
pub proof fn lemma_split_append(a: Seq<char>, b: Seq<char>, sep: char)
    requires
        !b.contains(sep),
    ensures
        split_seq(a.push(sep) + b, sep) =~= split_seq(a, sep).push(b),
    decreases b.len(),
{
    if b.len() == 0 {
        assert(a.push(sep) + b =~= a.push(sep));
        assert(b =~= Seq::<char>::empty());
        lemma_split_push_sep(a, sep);
    } else {
        let b1 = b.drop_last();
        let c = b.last();
        assert(!b1.contains(sep)) by {
            if b1.contains(sep) {
                let i = choose|i: int| 0 <= i < b1.len() && b1[i] == sep;
                assert(b[i] == sep);
            }
        }
        assert(c != sep) by {
            if c == sep {
                assert(b[b.len() - 1] == sep);
            }
        }
        lemma_split_append(a, b1, sep);
        assert(a.push(sep) + b =~= (a.push(sep) + b1).push(c));
        let x = a.push(sep) + b1;
        let sa = split_seq(a, sep);
        lemma_split_push_other(x, c, sep);
        assert(split_seq(x, sep) =~= sa.push(b1));
        assert(split_seq(x, sep).last() == b1);
        assert(b1.push(c) =~= b);
        assert(sa.push(b1).update(sa.len() as int, b) =~= sa.push(b));
        assert(split_seq(x.push(c), sep) =~= sa.push(b));
    }
}

/// Splitting joined newline-free lines gives the lines back.
pub proof fn lemma_split_join(ls: Seq<Seq<char>>)
    requires
        ls.len() >= 1,
        no_newlines(ls),
    ensures
        split_seq(join_spec(ls), '\n') =~= ls,
    decreases ls.len(),
{
    if ls.len() == 1 {
        assert(!ls[0].contains('\n'));
        lemma_split_no_sep(ls[0], '\n');
    } else {
        let init = ls.drop_last();
        assert(no_newlines(init)) by {
            assert forall|i: int| 0 <= i < init.len() implies !(#[trigger] init[i]).contains('\n') by {
                assert(init[i] == ls[i]);
            }
        }
        lemma_split_join(init);
        assert(!ls[ls.len() - 1].contains('\n'));
        assert(join_spec(init) + seq!['\n'] + ls.last() =~= join_spec(init).push('\n') + ls.last());
        lemma_split_append(join_spec(init), ls.last(), '\n');
        assert(init.push(ls.last()) =~= ls);
    }
}

/// Splitting text that has a separator right after `a` splits `a` and the
/// rest apart.
pub proof fn lemma_split_concat(a: Seq<char>, b: Seq<char>, sep: char)
    ensures
        split_seq(a.push(sep) + b, sep) =~= split_seq(a, sep) + split_seq(b, sep),
    decreases b.len(),
{
    let e = Seq::<char>::empty();
    if b.len() == 0 {
        assert(a.push(sep) + b =~= a.push(sep));
        lemma_split_push_sep(a, sep);
        assert(split_seq(b, sep) =~= seq![e]);
    } else {
        let b1 = b.drop_last();
        let c = b.last();
        lemma_split_concat(a, b1, sep);
        assert(a.push(sep) + b =~= (a.push(sep) + b1).push(c));
        assert(b1.push(c) =~= b);
        lemma_split_nonempty(b1, sep);
        lemma_split_nonempty(a, sep);
        if c == sep {
            lemma_split_push_sep(a.push(sep) + b1, sep);
            lemma_split_push_sep(b1, sep);
        } else {
            lemma_split_push_other(a.push(sep) + b1, c, sep);
            lemma_split_push_other(b1, c, sep);
        }
    }
}

/// Trimming ignores one trailing white-space char.
pub proof fn lemma_trim_drop_last_ws(s: Seq<char>)
    requires
        s.len() > 0,
        is_ws(s.last()),
    ensures
        trim(s.drop_last()) =~= trim(s),
    decreases s.len(),
{
    if is_ws(s[0]) {
        if s.len() == 1 {
            assert(s.drop_first() =~= Seq::<char>::empty());
            assert(s.drop_last() =~= Seq::<char>::empty());
        } else {
            let r = s.drop_first();
            assert(s.drop_last().drop_first() =~= r.drop_last());
            assert(r.last() == s.last());
            lemma_trim_drop_last_ws(r);
        }
    } else {
        assert(s.len() >= 2);
        assert(s.drop_last()[0] == s[0]);
    }
}

/// Joining the pieces of `s` split at newlines gives `s` back.
pub proof fn lemma_join_split(s: Seq<char>)
    ensures
        join_spec(split_seq(s, '\n')) =~= s,
    decreases s.len(),
{
    if s.len() == 0 {
        assert(split_seq(s, '\n') =~= seq![Seq::<char>::empty()]);
    } else {
        let a = s.drop_last();
        let c = s.last();
        assert(a.push(c) =~= s);
        lemma_join_split(a);
        lemma_split_nonempty(a, '\n');
        let ls = split_seq(a, '\n');
        if c == '\n' {
            lemma_split_push_sep(a, '\n');
            let ls2 = ls.push(Seq::<char>::empty());
            assert(ls2.drop_last() =~= ls);
            assert(join_spec(ls2) == join_spec(ls) + seq!['\n'] + Seq::<char>::empty());
        } else {
            lemma_split_push_other(a, c, '\n');
            let k = ls.len() - 1;
            let ls2 = ls.update(k, ls.last().push(c));
            if ls.len() == 1 {
                assert(join_spec(ls2) == ls2[0]);
            } else {
                assert(ls2.drop_last() =~= ls.drop_last());
                assert(join_spec(ls2) == join_spec(ls.drop_last()) + seq!['\n'] + ls.last().push(c));
                assert(join_spec(ls) == join_spec(ls.drop_last()) + seq!['\n'] + ls.last());
            }
        }
    }
}

/// The lines `lines[from..to]` joined with `\n`.
pub fn join_range(lines: &Vec<Vec<char>>, from: usize, to: usize) -> (r: Vec<char>)
    requires
        from <= to <= lines@.len(),
    ensures
        r@ == join_spec(vec_views(lines@).subrange(from as int, to as int)),
{
    let ghost ls = vec_views(lines@);
    let mut out: Vec<char> = Vec::new();
    let mut i = from;
    while i < to
        invariant
            ls == vec_views(lines@),
            from <= i <= to <= lines@.len(),
            out@ == join_spec(ls.subrange(from as int, i as int)),
        decreases to - i,
    {
        let ghost prev = out@;
        if i > from {
            out.push('\n');
        }
        let line = &lines[i];
        let mut k: usize = 0;
        let ghost base = out@;
        while k < line.len()
            invariant
                k <= line@.len(),
                out@ == base + line@.take(k as int),
            decreases line@.len() - k,
        {
            out.push(line[k]);
            assert(line@.take(k + 1) =~= line@.take(k as int).push(line@[k as int]));
            k += 1;
        }
        assert(line@.take(line@.len() as int) =~= line@);
        let ghost sub = ls.subrange(from as int, i + 1);
        assert(sub.drop_last() =~= ls.subrange(from as int, i as int));
        assert(ls[i as int] == line@);
        if i > from {
            assert(out@ =~= prev + seq!['\n'] + line@);
        } else {
            assert(sub.len() == 1);
            assert(out@ =~= line@);
        }
        i += 1;
    }
    out
}

} // verus!
