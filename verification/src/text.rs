//! Character-level text primitives: whitespace, searching, trimming and
//! splitting into lines, each with the mathematical definition that the
//! executable code is proved against.

use vstd::prelude::*;

verus! {

/// Whether `c` has the Unicode `White_Space` property.
pub open spec fn is_whitespace(c: char) -> bool {
    let n = c as u32;
    ||| 0x09 <= n <= 0x0D
    ||| n == 0x20
    ||| n == 0x85
    ||| n == 0xA0
    ||| n == 0x1680
    ||| 0x2000 <= n <= 0x200A
    ||| n == 0x2028
    ||| n == 0x2029
    ||| n == 0x202F
    ||| n == 0x205F
    ||| n == 0x3000
}

/// The index of the first `c` in `s`, or `s.len()` where `s` holds none.
pub open spec fn first_index_of(s: Seq<char>, c: char) -> int
    decreases s.len(),
{
    if s.len() == 0 || s[0] == c {
        0
    } else {
        1 + first_index_of(s.skip(1), c)
    }
}

/// Whether the two-character marker `${` starts at index `i` of `s`.
pub open spec fn opens_at(s: Seq<char>, i: int) -> bool {
    0 <= i && i + 1 < s.len() && s[i] == '$' && s[i + 1] == '{'
}

/// The index at which the first `${` of `s` starts, or `s.len()` where `s`
/// holds none.
pub open spec fn first_open(s: Seq<char>) -> int
    decreases s.len(),
{
    if s.len() < 2 {
        s.len() as int
    } else if s[0] == '$' && s[1] == '{' {
        0
    } else {
        1 + first_open(s.skip(1))
    }
}

/// `s` without its leading whitespace.
pub open spec fn trim_start(s: Seq<char>) -> Seq<char>
    decreases s.len(),
{
    if s.len() > 0 && is_whitespace(s[0]) {
        trim_start(s.skip(1))
    } else {
        s
    }
}

/// `s` without its trailing whitespace.
pub open spec fn trim_end(s: Seq<char>) -> Seq<char>
    decreases s.len(),
{
    if s.len() > 0 && is_whitespace(s.last()) {
        trim_end(s.drop_last())
    } else {
        s
    }
}

/// `s` without its leading and trailing whitespace.
pub open spec fn trim(s: Seq<char>) -> Seq<char> {
    trim_end(trim_start(s))
}

/// The pieces of `text` between its newline characters, in order. A text
/// with `k` newlines has `k + 1` lines; the last one is empty where the text
/// ends in a newline.
pub open spec fn lines(text: Seq<char>) -> Seq<Seq<char>>
    decreases text.len(),
{
    let i = first_index_of(text, '\n');
    if 0 <= i < text.len() {
        seq![text.take(i)] + lines(text.skip(i + 1))
    } else {
        seq![text]
    }
}

/// `first_index_of` lies within the sequence, points at `c` unless it is the
/// length, and nothing before it is `c`.
pub proof fn lemma_first_index_of(s: Seq<char>, c: char)
    ensures
        0 <= first_index_of(s, c) <= s.len(),
        first_index_of(s, c) < s.len() ==> s[first_index_of(s, c)] == c,
        forall|j: int| 0 <= j < first_index_of(s, c) ==> s[j] != c,
    decreases s.len(),
{
    if s.len() == 0 || s[0] == c {
    } else {
        lemma_first_index_of(s.skip(1), c);
        let r = first_index_of(s.skip(1), c);
        assert forall|j: int| 0 <= j < 1 + r implies s[j] != c by {
            if j > 0 {
                assert(s.skip(1)[j - 1] == s[j]);
            }
        }
    }
}

/// An index with the three properties of `lemma_first_index_of` is
/// `first_index_of`.
pub proof fn lemma_first_index_of_is(s: Seq<char>, c: char, i: int)
    requires
        0 <= i <= s.len(),
        i < s.len() ==> s[i] == c,
        forall|j: int| 0 <= j < i ==> s[j] != c,
    ensures
        first_index_of(s, c) == i,
    decreases s.len(),
{
    if s.len() == 0 || s[0] == c {
    } else {
        assert forall|j: int| 0 <= j < i - 1 implies s.skip(1)[j] != c by {
            assert(s.skip(1)[j] == s[j + 1]);
        }
        lemma_first_index_of_is(s.skip(1), c, i - 1);
    }
}

/// `first_open` lies within the sequence, `${` starts there unless it is the
/// length, and `${` starts nowhere before it.
pub proof fn lemma_first_open(s: Seq<char>)
    ensures
        0 <= first_open(s) <= s.len(),
        first_open(s) < s.len() ==> opens_at(s, first_open(s)),
        forall|j: int| 0 <= j < first_open(s) ==> !opens_at(s, j),
    decreases s.len(),
{
    if s.len() < 2 {
    } else if s[0] == '$' && s[1] == '{' {
    } else {
        let t = s.skip(1);
        lemma_first_open(t);
        let r = first_open(t);
        assert forall|j: int| 0 <= j < 1 + r implies !opens_at(s, j) by {
            if j > 0 {
                assert(opens_at(t, j - 1) == opens_at(s, j));
            }
        }
        if 1 + r < s.len() {
            assert(opens_at(t, r));
        }
    }
}

/// An index with the three properties of `lemma_first_open` is `first_open`.
pub proof fn lemma_first_open_is(s: Seq<char>, i: int)
    requires
        0 <= i <= s.len(),
        i < s.len() ==> opens_at(s, i),
        forall|j: int| 0 <= j < i ==> !opens_at(s, j),
    ensures
        first_open(s) == i,
    decreases s.len(),
{
    if s.len() < 2 {
    } else if s[0] == '$' && s[1] == '{' {
        assert(opens_at(s, 0));
    } else {
        let t = s.skip(1);
        assert(!opens_at(s, 0));
        assert forall|j: int| 0 <= j < i - 1 implies !opens_at(t, j) by {
            assert(opens_at(t, j) == opens_at(s, j + 1));
        }
        if i < s.len() {
            assert(opens_at(t, i - 1) == opens_at(s, i));
        }
        lemma_first_open_is(t, i - 1);
    }
}

/// Where the first `a` characters of `s` are whitespace and the next one, if
/// any, is not, `trim_start` drops exactly those `a`.
pub proof fn lemma_trim_start_is(s: Seq<char>, a: int)
    requires
        0 <= a <= s.len(),
        forall|j: int| 0 <= j < a ==> is_whitespace(s[j]),
        a < s.len() ==> !is_whitespace(s[a]),
    ensures
        trim_start(s) == s.skip(a),
    decreases s.len(),
{
    if s.len() > 0 && is_whitespace(s[0]) {
        let t = s.skip(1);
        assert forall|j: int| 0 <= j < a - 1 implies is_whitespace(t[j]) by {
            assert(t[j] == s[j + 1]);
        }
        lemma_trim_start_is(t, a - 1);
        assert(t.skip(a - 1) =~= s.skip(a));
    } else {
        assert(s.skip(0) =~= s);
    }
}

/// Where the characters of `s` from `b` on are whitespace and the one before
/// `b`, if any, is not, `trim_end` keeps exactly the first `b`.
pub proof fn lemma_trim_end_is(s: Seq<char>, b: int)
    requires
        0 <= b <= s.len(),
        forall|j: int| b <= j < s.len() ==> is_whitespace(s[j]),
        b > 0 ==> !is_whitespace(s[b - 1]),
    ensures
        trim_end(s) == s.take(b),
    decreases s.len(),
{
    if s.len() > 0 && is_whitespace(s.last()) {
        let t = s.drop_last();
        assert forall|j: int| b <= j < t.len() implies is_whitespace(t[j]) by {
            assert(t[j] == s[j]);
        }
        lemma_trim_end_is(t, b);
        assert(t.take(b) =~= s.take(b));
    } else {
        assert(s.take(s.len() as int) =~= s);
    }
}

/// The shape of `trim(s)`: a piece `s[a..b]` of `s` that neither begins nor
/// ends with whitespace.
pub proof fn lemma_trim_shape(s: Seq<char>) -> (r: (int, int))
    ensures
        0 <= r.0 <= r.1 <= s.len(),
        trim(s) == s.subrange(r.0, r.1),
        r.0 < r.1 ==> !is_whitespace(s[r.0]) && !is_whitespace(s[r.1 - 1]),
{
    let a = lemma_trim_start_shape(s);
    let rest = s.skip(a);
    let b = lemma_trim_end_shape(rest);
    assert(rest.take(b) =~= s.subrange(a, a + b));
    (a, a + b)
}

/// The shape of `trim_start(s)`: `s` from some index on, where no whitespace
/// stands.
pub proof fn lemma_trim_start_shape(s: Seq<char>) -> (a: int)
    ensures
        0 <= a <= s.len(),
        trim_start(s) == s.skip(a),
        a < s.len() ==> !is_whitespace(s[a]),
    decreases s.len(),
{
    if s.len() > 0 && is_whitespace(s[0]) {
        let a = lemma_trim_start_shape(s.skip(1));
        assert(s.skip(1).skip(a) =~= s.skip(a + 1));
        a + 1
    } else {
        assert(s.skip(0) =~= s);
        0
    }
}

/// The shape of `trim_end(s)`: `s` up to some index, before which no
/// whitespace stands.
pub proof fn lemma_trim_end_shape(s: Seq<char>) -> (b: int)
    ensures
        0 <= b <= s.len(),
        trim_end(s) == s.take(b),
        b > 0 ==> !is_whitespace(s[b - 1]),
    decreases s.len(),
{
    if s.len() > 0 && is_whitespace(s.last()) {
        let b = lemma_trim_end_shape(s.drop_last());
        assert(s.drop_last().take(b) =~= s.take(b));
        b
    } else {
        assert(s.take(s.len() as int) =~= s);
        s.len() as int
    }
}

/// Trimming what is trimmed changes nothing.
pub proof fn lemma_trim_idempotent(s: Seq<char>)
    ensures
        trim(trim(s)) == trim(s),
{
    let (a, b) = lemma_trim_shape(s);
    let t = trim(s);
    lemma_trim_start_is(t, 0);
    assert(t.skip(0) =~= t);
    lemma_trim_end_is(t, t.len() as int);
    assert(t.take(t.len() as int) =~= t);
}

/// Trimming brings in no character: what `trim(s)` holds, `s` holds.
pub proof fn lemma_trim_chars(s: Seq<char>)
    ensures
        forall|c: char| #[trigger] trim(s).contains(c) ==> s.contains(c),
{
    let (a, b) = lemma_trim_shape(s);
    assert forall|c: char| #[trigger] trim(s).contains(c) implies s.contains(c) by {
        let i = choose|i: int| 0 <= i < trim(s).len() && trim(s)[i] == c;
        assert(s[a + i] == c);
    }
}

/// No line holds a newline.
pub proof fn lemma_lines_hold_no_newline(text: Seq<char>)
    ensures
        forall|k: int| 0 <= k < lines(text).len() ==> !(#[trigger] lines(text)[k]).contains('\n'),
    decreases text.len(),
{
    let i = first_index_of(text, '\n');
    lemma_first_index_of(text, '\n');
    if 0 <= i < text.len() {
        let head = text.take(i);
        let tail = lines(text.skip(i + 1));
        lemma_lines_hold_no_newline(text.skip(i + 1));
        assert forall|k: int| 0 <= k < lines(text).len() implies !(#[trigger] lines(
            text,
        )[k]).contains('\n') by {
            if k == 0 {
                assert(lines(text)[0] == head);
            } else {
                assert(lines(text)[k] == tail[k - 1]);
            }
        }
    }
}

/// `lines` put together again, with a newline between each two.
pub open spec fn join_lines(lines: Seq<Seq<char>>) -> Seq<char>
    decreases lines.len(),
{
    if lines.len() == 0 {
        Seq::empty()
    } else if lines.len() == 1 {
        lines[0]
    } else {
        lines[0] + seq!['\n'] + join_lines(lines.skip(1))
    }
}

/// Splitting loses nothing: a text has at least one line, and its lines
/// joined by newlines are the text.
pub proof fn lemma_lines_join(text: Seq<char>)
    ensures
        lines(text).len() >= 1,
        join_lines(lines(text)) == text,
    decreases text.len(),
{
    let i = first_index_of(text, '\n');
    lemma_first_index_of(text, '\n');
    if 0 <= i < text.len() {
        let tail = lines(text.skip(i + 1));
        lemma_lines_join(text.skip(i + 1));
        assert(lines(text).skip(1) =~= tail);
        assert(text.take(i) + seq!['\n'] + text.skip(i + 1) =~= text);
    }
}

/// The lines of a first line, a newline and a remainder: that line, then the
/// lines of the remainder.
pub proof fn lemma_lines_first(line: Seq<char>, rest: Seq<char>)
    requires
        !line.contains('\n'),
    ensures
        lines(line + seq!['\n'] + rest) == seq![line] + lines(rest),
{
    let text = line + seq!['\n'] + rest;
    let n = line.len() as int;
    assert forall|j: int| 0 <= j < n implies text[j] != '\n' by {
        assert(line[j] == text[j]);
        assert(line.contains(text[j]));
    }
    assert(text[n] == '\n');
    lemma_first_index_of_is(text, '\n', n);
    assert(text.take(n) =~= line);
    assert(text.skip(n + 1) =~= rest);
}

/// Whether `c` has the Unicode `White_Space` property.
pub fn whitespace(c: char) -> (b: bool)
    ensures
        b == is_whitespace(c),
{
    let n: u32 = c as u32;
    (0x09 <= n && n <= 0x0D) || n == 0x20 || n == 0x85 || n == 0xA0 || n == 0x1680 || (0x2000 <= n
        && n <= 0x200A) || n == 0x2028 || n == 0x2029 || n == 0x202F || n == 0x205F || n == 0x3000
}

/// The characters of `s`, in order.
pub fn chars_of(s: &str) -> (v: Vec<char>)
    ensures
        v@ == s@,
{
    let mut v: Vec<char> = Vec::new();
    for c in it: s.chars()
        invariant
            v@ == it.seq().take(it.index()),
            it.seq() == s@,
    {
        v.push(c);
    }
    v
}

/// The position of the first `c` within `s[from..to]`, or `to` where that
/// range holds none.
pub(crate) fn find_char(s: &Vec<char>, from: usize, to: usize, c: char) -> (i: usize)
    requires
        from <= to <= s.len(),
    ensures
        from <= i <= to,
        i - from == first_index_of(s@.subrange(from as int, to as int), c),
{
    let mut i: usize = from;
    while i < to && s[i] != c
        invariant
            from <= i <= to <= s.len(),
            forall|j: int| from <= j < i ==> s[j] != c,
        decreases to - i,
    {
        i += 1;
    }
    proof {
        lemma_first_index_of_is(s@.subrange(from as int, to as int), c, i - from);
    }
    i
}

/// The position at which the first `${` within `s[from..to]` starts, or `to`
/// where that range holds none.
pub(crate) fn find_open(s: &Vec<char>, from: usize, to: usize) -> (i: usize)
    requires
        from <= to <= s.len(),
    ensures
        from <= i <= to,
        i < to ==> i + 2 <= to,
        i - from == first_open(s@.subrange(from as int, to as int)),
{
    let ghost line = s@.subrange(from as int, to as int);
    let mut i: usize = from;
    while i < to
        invariant
            from <= i <= to <= s.len(),
            line == s@.subrange(from as int, to as int),
            forall|j: int| 0 <= j < i - from ==> !opens_at(line, j),
        decreases to - i,
    {
        if s[i] == '$' && i + 1 < to && s[i + 1] == '{' {
            proof {
                assert(opens_at(line, i - from));
                lemma_first_open_is(line, i - from);
            }
            return i;
        }
        assert(!opens_at(line, i - from));
        i += 1;
    }
    proof {
        lemma_first_open_is(line, i - from);
    }
    i
}

/// The bounds of `s[from..to]` without its leading and trailing whitespace.
pub(crate) fn trim_range(s: &Vec<char>, from: usize, to: usize) -> (r: (usize, usize))
    requires
        from <= to <= s.len(),
    ensures
        from <= r.0 <= r.1 <= to,
        s@.subrange(r.0 as int, r.1 as int) == trim(s@.subrange(from as int, to as int)),
{
    let ghost piece = s@.subrange(from as int, to as int);
    let mut a: usize = from;
    while a < to && whitespace(s[a])
        invariant
            from <= a <= to <= s.len(),
            forall|j: int| from <= j < a ==> is_whitespace(s[j]),
        decreases to - a,
    {
        a += 1;
    }
    let mut b: usize = to;
    while b > a && whitespace(s[b - 1])
        invariant
            a <= b <= to <= s.len(),
            forall|j: int| b <= j < to ==> is_whitespace(s[j]),
        decreases b - a,
    {
        b -= 1;
    }
    proof {
        lemma_trim_start_is(piece, a - from);
        let rest = piece.skip(a - from);
        assert(rest =~= s@.subrange(a as int, to as int));
        lemma_trim_end_is(rest, b - a);
        assert(rest.take(b - a) =~= s@.subrange(a as int, b as int));
    }
    (a, b)
}

} // verus!
