//! The variable extractor: which names a bundle's two files ask for.
//!
//! A service-definition file contributes, per line, the first `${...}`
//! reference of that line; an environment file contributes the key of each
//! `key=value` line. Names that the execution environment supplies itself are
//! left out, and adjacent repeats of a name are collapsed into one.
//!
//! Three behaviours are kept on purpose and are part of the contracts:
//! only the first reference of a line counts; a reference without a closing
//! brace runs to the end of its line; and `${}` yields the empty name, which
//! is not filtered.

use crate::text::{
    chars_of, find_char, find_open, first_index_of, first_open, lemma_first_index_of,
    lemma_first_open, lemma_trim_chars, lemma_trim_idempotent, lines, trim, trim_range,
};
use vstd::prelude::*;

verus! {

/// The two files of a bundle that name variables.
#[derive(Clone, Copy, Debug)]
pub enum Source {
    /// `docker-compose.yml`: variables are referenced as `${NAME}` or
    /// `${NAME:default}`.
    ServiceDefinition,
    /// `.env`: variables are the keys of `key=value` lines.
    EnvironmentFile,
}

/// Whether `name` is one of the names that the execution environment supplies
/// itself: `PWD`, `HOME`, `USER`, `PATH`, `HOSTNAME`.
pub open spec fn is_built_in(name: Seq<char>) -> bool {
    ||| name == "PWD"@
    ||| name == "HOME"@
    ||| name == "USER"@
    ||| name == "PATH"@
    ||| name == "HOSTNAME"@
}

/// The name that a service-definition line refers to, if it holds `${`: the
/// text after the first `${` up to the next `}` (or to the end of the line),
/// cut before its first `:`, and trimmed.
pub open spec fn reference(line: Seq<char>) -> Option<Seq<char>> {
    let open = first_open(line);
    if open < line.len() {
        let rest = line.skip(open + 2);
        let token = rest.take(first_index_of(rest, '}'));
        let name = token.take(first_index_of(token, ':'));
        Some(trim(name))
    } else {
        None
    }
}

/// The key of an environment-file line, if it holds `=`: the text before the
/// first `=`, trimmed.
pub open spec fn key(line: Seq<char>) -> Option<Seq<char>> {
    let eq = first_index_of(line, '=');
    if eq < line.len() {
        Some(trim(line.take(eq)))
    } else {
        None
    }
}

/// The name that `line` puts forward, read as a line of `source`.
pub open spec fn candidate(line: Seq<char>, source: Source) -> Option<Seq<char>> {
    match source {
        Source::ServiceDefinition => reference(line),
        Source::EnvironmentFile => key(line),
    }
}

/// What `line` contributes: its candidate unless that is built in, else
/// nothing.
pub open spec fn line_names(line: Seq<char>, source: Source) -> Seq<Seq<char>> {
    match candidate(line, source) {
        Some(name) => if is_built_in(name) {
            Seq::empty()
        } else {
            seq![name]
        },
        None => Seq::empty(),
    }
}

/// The contributions of `lines`, in order.
pub open spec fn names_in(lines: Seq<Seq<char>>, source: Source) -> Seq<Seq<char>>
    decreases lines.len(),
{
    if lines.len() == 0 {
        Seq::empty()
    } else {
        line_names(lines[0], source) + names_in(lines.skip(1), source)
    }
}

/// The names that a file contributes; a file that is absent contributes
/// none.
pub open spec fn source_names(content: Option<Seq<char>>, source: Source) -> Seq<Seq<char>> {
    match content {
        Some(text) => names_in(lines(text), source),
        None => Seq::empty(),
    }
}

/// `s` with each run of equal adjacent elements reduced to its first.
pub open spec fn collapse<A>(s: Seq<A>) -> Seq<A>
    decreases s.len(),
{
    if s.len() <= 1 {
        s
    } else if s[s.len() - 2] == s.last() {
        collapse(s.drop_last())
    } else {
        collapse(s.drop_last()).push(s.last())
    }
}

/// The required variables of a bundle whose service-definition file holds
/// `compose` and whose environment file holds `env`: the names of the first,
/// then those of the second, adjacent repeats collapsed.
pub open spec fn required_variables(
    compose: Option<Seq<char>>,
    env: Option<Seq<char>>,
) -> Seq<Seq<char>> {
    collapse(
        source_names(compose, Source::ServiceDefinition) + source_names(
            env,
            Source::EnvironmentFile,
        ),
    )
}

/// What every list of required variables satisfies: no name is built in and
/// no name equals the one before it.
pub open spec fn is_variable_list(names: Seq<Seq<char>>) -> bool {
    &&& forall|i: int| 0 <= i < names.len() ==> !is_built_in(#[trigger] names[i])
    &&& forall|i: int| 0 < i < names.len() ==> names[i - 1] != #[trigger] names[i]
}

/// Whether `s[from..to]` spells `word`.
fn range_is(s: &Vec<char>, from: usize, to: usize, word: &str) -> (r: bool)
    requires
        from <= to <= s.len(),
    ensures
        r == (s@.subrange(from as int, to as int) == word@),
{
    let w = chars_of(word);
    if w.len() != to - from {
        return false;
    }
    let mut i: usize = 0;
    while i < w.len()
        invariant
            from <= to <= s.len(),
            w@ == word@,
            w.len() == to - from,
            i <= w.len(),
            forall|j: int| 0 <= j < i ==> s[from + j] == w[j],
        decreases w.len() - i,
    {
        if s[from + i] != w[i] {
            assert(s@.subrange(from as int, to as int)[i as int] != w@[i as int]);
            return false;
        }
        i += 1;
    }
    assert(s@.subrange(from as int, to as int) =~= w@);
    true
}

/// Whether `s[from..to]` is a built-in name.
fn built_in_range(s: &Vec<char>, from: usize, to: usize) -> (r: bool)
    requires
        from <= to <= s.len(),
    ensures
        r == is_built_in(s@.subrange(from as int, to as int)),
{
    range_is(s, from, to, "PWD") || range_is(s, from, to, "HOME") || range_is(s, from, to, "USER")
        || range_is(s, from, to, "PATH") || range_is(s, from, to, "HOSTNAME")
}

/// The bounds of the name that the service-definition line `s[from..to]`
/// refers to.
fn reference_range(s: &Vec<char>, from: usize, to: usize) -> (r: Option<(usize, usize)>)
    requires
        from <= to <= s.len(),
    ensures
        match r {
            Some((a, b)) => from <= a <= b <= to && reference(
                s@.subrange(from as int, to as int),
            ) == Some(s@.subrange(a as int, b as int)),
            None => reference(s@.subrange(from as int, to as int)) is None,
        },
{
    let open = find_open(s, from, to);
    if open == to {
        return None;
    }
    let close = find_char(s, open + 2, to, '}');
    let colon = find_char(s, open + 2, close, ':');
    let bounds = trim_range(s, open + 2, colon);
    proof {
        let line = s@.subrange(from as int, to as int);
        let rest = line.skip(open - from + 2);
        assert(rest =~= s@.subrange(open + 2, to as int));
        let token = rest.take(first_index_of(rest, '}'));
        assert(token =~= s@.subrange(open + 2, close as int));
        let name = token.take(first_index_of(token, ':'));
        assert(name =~= s@.subrange(open + 2, colon as int));
    }
    Some(bounds)
}

/// The bounds of the key of the environment-file line `s[from..to]`.
fn key_range(s: &Vec<char>, from: usize, to: usize) -> (r: Option<(usize, usize)>)
    requires
        from <= to <= s.len(),
    ensures
        match r {
            Some((a, b)) => from <= a <= b <= to && key(s@.subrange(from as int, to as int))
                == Some(s@.subrange(a as int, b as int)),
            None => key(s@.subrange(from as int, to as int)) is None,
        },
{
    let eq = find_char(s, from, to, '=');
    if eq == to {
        return None;
    }
    let bounds = trim_range(s, from, eq);
    proof {
        let line = s@.subrange(from as int, to as int);
        assert(line.take(eq - from) =~= s@.subrange(from as int, eq as int));
    }
    Some(bounds)
}

/// The bounds of the candidate of the line `s[from..to]` of `source`.
fn candidate_range(s: &Vec<char>, from: usize, to: usize, source: Source) -> (r: Option<
    (usize, usize),
>)
    requires
        from <= to <= s.len(),
    ensures
        match r {
            Some((a, b)) => from <= a <= b <= to && candidate(
                s@.subrange(from as int, to as int),
                source,
            ) == Some(s@.subrange(a as int, b as int)),
            None => candidate(s@.subrange(from as int, to as int), source) is None,
        },
{
    match source {
        Source::ServiceDefinition => reference_range(s, from, to),
        Source::EnvironmentFile => key_range(s, from, to),
    }
}

/// Whether `name` is one of `PWD`, `HOME`, `USER`, `PATH`, `HOSTNAME`.
pub fn built_in(name: &str) -> (r: bool)
    ensures
        r == is_built_in(name@),
{
    let s = chars_of(name);
    assert(s@.subrange(0, s.len() as int) =~= name@);
    built_in_range(&s, 0, s.len())
}

/// The name that `line` puts forward, read as a line of `source`; `line` is
/// taken whole, newlines included.
pub fn line_candidate(line: &str, source: Source) -> (r: Option<String>)
    ensures
        r.deep_view() == candidate(line@, source),
{
    let s = chars_of(line);
    assert(s@.subrange(0, s.len() as int) =~= line@);
    match candidate_range(&s, 0, s.len(), source) {
        Some((a, b)) => Some(String::from_str(line.substring_char(a, b))),
        None => None,
    }
}

/// Appends to `names` what the file with the text `content` contributes, read
/// as `source`.
pub fn scan(content: &str, source: Source, names: &mut Vec<String>)
    ensures
        final(names).deep_view() == old(names).deep_view() + names_in(lines(content@), source),
{
    let s = chars_of(content);
    let n = s.len();
    let ghost total = names.deep_view() + names_in(lines(content@), source);
    let mut start: usize = 0;
    let mut done = false;
    assert(s@.skip(0) =~= s@);
    while !done
        invariant
            n == s.len(),
            s@ == content@,
            start <= n,
            done ==> names.deep_view() == total,
            !done ==> total == names.deep_view() + names_in(
                lines(s@.skip(start as int)),
                source,
            ),
        decreases
                (if done {
                    0int
                } else {
                    n - start + 1
                }),
    {
        let end = find_char(&s, start, n, '\n');
        let ghost rest = s@.skip(start as int);
        let ghost line = s@.subrange(start as int, end as int);
        let ghost seen = names.deep_view();
        assert(rest =~= s@.subrange(start as int, n as int));
        match candidate_range(&s, start, end, source) {
            Some((a, b)) => {
                if !built_in_range(&s, a, b) {
                    names.push(String::from_str(content.substring_char(a, b)));
                    assert(names.deep_view() =~= seen.push(s@.subrange(a as int, b as int)));
                }
            },
            None => {},
        }
        assert(names.deep_view() =~= seen + line_names(line, source));
        if end == n {
            proof {
                assert(line =~= rest);
                assert(lines(rest) =~= seq![line] + Seq::empty());
                lemma_names_in_first(line, Seq::empty(), source);
            }
            done = true;
        } else {
            proof {
                let tail = lines(s@.skip(end + 1));
                assert(rest.take(end - start) =~= line);
                assert(rest.skip(end - start + 1) =~= s@.skip(end + 1));
                assert(lines(rest) == seq![line] + tail);
                lemma_names_in_first(line, tail, source);
            }
            start = end + 1;
        }
    }
}

/// A copy of `names` in which each run of equal adjacent names is reduced to
/// its first.
pub fn dedup(names: &Vec<String>) -> (out: Vec<String>)
    ensures
        out.deep_view() == collapse(names.deep_view()),
{
    let mut out: Vec<String> = Vec::new();
    let mut i: usize = 0;
    assert(out.deep_view() =~= Seq::<Seq<char>>::empty());
    while i < names.len()
        invariant
            i <= names.len(),
            out.deep_view() == collapse(names.deep_view().take(i as int)),
        decreases names.len() - i,
    {
        let ghost kept = out.deep_view();
        let ghost prefix = names.deep_view().take(i + 1);
        assert(prefix.drop_last() =~= names.deep_view().take(i as int));
        if i == 0 || !(names[i - 1] == names[i]) {
            out.push(names[i].clone());
            assert(out.deep_view() =~= kept.push(names[i as int]@));
        }
        i += 1;
    }
    assert(names.deep_view().take(names.len() as int) =~= names.deep_view());
    out
}

/// The required variables of a bundle, from the text of its
/// service-definition file and of its environment file, each `None` where the
/// file does not exist.
pub fn find_env_vars(compose: Option<&str>, env: Option<&str>) -> (names: Vec<String>)
    ensures
        names.deep_view() == required_variables(compose.deep_view(), env.deep_view()),
        is_variable_list(names.deep_view()),
        compose is None && env is None ==> names@.len() == 0,
{
    let mut found: Vec<String> = Vec::new();
    assert(found.deep_view() =~= Seq::<Seq<char>>::empty());
    if let Some(content) = compose {
        scan(content, Source::ServiceDefinition, &mut found);
    }
    assert(found.deep_view() =~= source_names(compose.deep_view(), Source::ServiceDefinition));
    if let Some(content) = env {
        scan(content, Source::EnvironmentFile, &mut found);
    }
    assert(found.deep_view() =~= source_names(compose.deep_view(), Source::ServiceDefinition)
        + source_names(env.deep_view(), Source::EnvironmentFile));
    proof {
        lemma_required_variables_form(compose.deep_view(), env.deep_view());
    }
    dedup(&found)
}

/// No two neighbours of `collapse(s)` are equal, it is no longer than `s`,
/// and it begins and ends as `s` does.
pub proof fn lemma_collapse_shape<A>(s: Seq<A>)
    ensures
        collapse(s).len() <= s.len(),
        s.len() > 0 ==> collapse(s).len() > 0 && collapse(s)[0] == s[0] && collapse(s).last()
            == s.last(),
        forall|i: int| 0 < i < collapse(s).len() ==> collapse(s)[i - 1] != #[trigger] collapse(s)[i],
    decreases s.len(),
{
    if s.len() > 1 {
        lemma_collapse_shape(s.drop_last());
    }
}

/// `collapse` neither adds nor loses a value: it holds exactly the elements
/// of `s`.
pub proof fn lemma_collapse_members<A>(s: Seq<A>)
    ensures
        forall|x: A|
            #![trigger collapse(s).contains(x)]
            #![trigger s.contains(x)]
            collapse(s).contains(x) <==> s.contains(x),
    decreases s.len(),
{
    if s.len() > 1 {
        let front = s.drop_last();
        let c = collapse(s);
        lemma_collapse_members(front);
        lemma_collapse_shape(front);
        assert forall|x: A| c.contains(x) <==> s.contains(x) by {
            if c.contains(x) {
                let i = choose|i: int| 0 <= i < c.len() && c[i] == x;
                if i < collapse(front).len() {
                    assert(collapse(front).contains(x));
                    let j = choose|j: int| 0 <= j < front.len() && front[j] == x;
                    assert(s[j] == x);
                } else {
                    assert(s[s.len() - 1] == x);
                }
            }
            if s.contains(x) {
                let j = choose|j: int| 0 <= j < s.len() && s[j] == x;
                if j < front.len() {
                    assert(front[j] == x);
                    assert(front.contains(x));
                    let i = choose|i: int| 0 <= i < collapse(front).len() && collapse(front)[i]
                        == x;
                    assert(c[i] == x);
                } else if s[s.len() - 2] == s.last() {
                    assert(front[front.len() - 1] == x);
                    assert(front.contains(x));
                    let i = choose|i: int| 0 <= i < collapse(front).len() && collapse(front)[i]
                        == x;
                    assert(c[i] == x);
                } else {
                    assert(c[c.len() - 1] == x);
                }
            }
        }
    }
}

/// A sequence without equal neighbours is left as it is.
pub proof fn lemma_collapse_fixed<A>(s: Seq<A>)
    requires
        forall|i: int| 0 < i < s.len() ==> s[i - 1] != #[trigger] s[i],
    ensures
        collapse(s) == s,
    decreases s.len(),
{
    if s.len() > 1 {
        lemma_collapse_fixed(s.drop_last());
        assert(s.drop_last().push(s.last()) =~= s);
    }
}

/// Collapsing twice is collapsing once.
pub proof fn lemma_collapse_idempotent<A>(s: Seq<A>)
    ensures
        collapse(collapse(s)) == collapse(s),
{
    lemma_collapse_shape(s);
    lemma_collapse_fixed(collapse(s));
}

/// The contributions of a first line and the lines after it.
pub proof fn lemma_names_in_first(line: Seq<char>, tail: Seq<Seq<char>>, source: Source)
    ensures
        names_in(seq![line] + tail, source) == line_names(line, source) + names_in(tail, source),
{
    assert((seq![line] + tail).skip(1) =~= tail);
}

/// No contribution of a file is a built-in name.
pub proof fn lemma_names_in_not_built_in(lines: Seq<Seq<char>>, source: Source)
    ensures
        forall|i: int|
            0 <= i < names_in(lines, source).len() ==> !is_built_in(
                #[trigger] names_in(lines, source)[i],
            ),
    decreases lines.len(),
{
    if lines.len() > 0 {
        let head = line_names(lines[0], source);
        let rest = names_in(lines.skip(1), source);
        lemma_names_in_not_built_in(lines.skip(1), source);
        assert forall|i: int| 0 <= i < (head + rest).len() implies !is_built_in(
            #[trigger] (head + rest)[i],
        ) by {
            if i >= head.len() {
                assert((head + rest)[i] == rest[i - head.len()]);
            }
        }
    }
}

/// The required variables of any bundle hold no built-in name and no name
/// twice in a row.
pub proof fn lemma_required_variables_form(compose: Option<Seq<char>>, env: Option<Seq<char>>)
    ensures
        is_variable_list(required_variables(compose, env)),
{
    let first = source_names(compose, Source::ServiceDefinition);
    let second = source_names(env, Source::EnvironmentFile);
    let all = first + second;
    let names = required_variables(compose, env);
    if compose is Some {
        lemma_names_in_not_built_in(lines(compose->0), Source::ServiceDefinition);
    }
    if env is Some {
        lemma_names_in_not_built_in(lines(env->0), Source::EnvironmentFile);
    }
    lemma_collapse_shape(all);
    lemma_collapse_members(all);
    assert forall|i: int| 0 <= i < names.len() implies !is_built_in(#[trigger] names[i]) by {
        assert(names.contains(names[i]));
        let j = choose|j: int| 0 <= j < all.len() && all[j] == names[i];
        if j < first.len() {
            assert(all[j] == first[j]);
        } else {
            assert(all[j] == second[j - first.len()]);
        }
    }
}

/// Collapsing a concatenation: the two parts collapsed, and where the first
/// ends as the second begins, that element once.
pub proof fn lemma_collapse_concat<A>(a: Seq<A>, b: Seq<A>)
    ensures
        collapse(a + b) == if a.len() == 0 {
            collapse(b)
        } else if b.len() == 0 {
            collapse(a)
        } else if a.last() == b[0] {
            collapse(a) + collapse(b).skip(1)
        } else {
            collapse(a) + collapse(b)
        },
    decreases b.len(),
{
    if a.len() == 0 {
        assert(a + b =~= b);
    } else if b.len() == 0 {
        assert(a + b =~= a);
    } else {
        let front = b.drop_last();
        assert((a + b).drop_last() =~= a + front);
        lemma_collapse_concat(a, front);
        lemma_collapse_shape(front);
        if front.len() == 0 {
            assert(a + front =~= a);
            assert(collapse(b).skip(1) =~= Seq::<A>::empty());
            assert(collapse(a) + Seq::<A>::empty() =~= collapse(a));
            assert(collapse(a).push(b.last()) =~= collapse(a) + collapse(b));
        } else {
            assert((a + b)[(a + b).len() - 2] == b[b.len() - 2]);
            if b[b.len() - 2] != b.last() {
                assert((collapse(a) + collapse(front).skip(1)).push(b.last()) =~= collapse(a)
                    + collapse(front).push(b.last()).skip(1));
                assert((collapse(a) + collapse(front)).push(b.last()) =~= collapse(a) + collapse(
                    front,
                ).push(b.last()));
            }
        }
    }
}

/// Putting `c` in front of `collapse(c + e)` and collapsing again gives
/// `collapse(c + e)` back exactly where `c` holds at most one distinct run:
/// where it is empty or repeats a single element.
pub proof fn lemma_collapse_absorbs<A>(c: Seq<A>, e: Seq<A>)
    ensures
        collapse(c + collapse(c + e)) == collapse(c + e) <==> collapse(c).len() <= 1,
{
    let x = collapse(c + e);
    lemma_collapse_shape(c + e);
    lemma_collapse_shape(c);
    lemma_collapse_idempotent(c + e);
    lemma_collapse_concat(c, x);
    if c.len() > 0 {
        assert((c + e)[0] == c[0]);
        if c.last() == x[0] {
            if collapse(c).len() == 1 {
                assert(collapse(c) + x.skip(1) =~= x);
            } else {
                assert((collapse(c) + x.skip(1)).len() != x.len());
            }
        } else {
            assert((collapse(c) + x).len() != x.len());
        }
    }
}

/// A name that an environment file gives back as it was written: it holds
/// neither `=` nor a newline, is trimmed, and is not built in.
pub open spec fn is_plain(name: Seq<char>) -> bool {
    &&& !name.contains('=')
    &&& !name.contains('\n')
    &&& trim(name) == name
    &&& !is_built_in(name)
}

/// A candidate is trimmed and made of characters of its line; a key holds no
/// `=`.
pub proof fn lemma_candidate_chars(line: Seq<char>, source: Source)
    ensures
        candidate(line, source) matches Some(name) ==> {
            &&& trim(name) == name
            &&& forall|c: char| #[trigger] name.contains(c) ==> line.contains(c)
            &&& source is EnvironmentFile ==> !name.contains('=')
        },
{
    if let Some(name) = candidate(line, source) {
        let raw = match source {
            Source::ServiceDefinition => {
                let open = first_open(line);
                let rest = line.skip(open + 2);
                let token = rest.take(first_index_of(rest, '}'));
                token.take(first_index_of(token, ':'))
            },
            Source::EnvironmentFile => line.take(first_index_of(line, '=')),
        };
        let offset: int = match source {
            Source::ServiceDefinition => first_open(line) + 2,
            Source::EnvironmentFile => 0,
        };
        assert(name == trim(raw));
        lemma_trim_idempotent(raw);
        lemma_trim_chars(raw);
        lemma_first_open(line);
        lemma_first_index_of(line, '=');
        if source is ServiceDefinition {
            let rest = line.skip(offset);
            lemma_first_index_of(rest, '}');
            lemma_first_index_of(rest.take(first_index_of(rest, '}')), ':');
        }
        assert forall|i: int| 0 <= i < raw.len() implies raw[i] == line[offset + i] by {}
        assert forall|c: char| #[trigger] name.contains(c) implies line.contains(c) by {
            assert(raw.contains(c));
            let i = choose|i: int| 0 <= i < raw.len() && raw[i] == c;
            assert(line[offset + i] == c);
        }
        if source is EnvironmentFile && name.contains('=') {
            assert(raw.contains('='));
            let i = choose|i: int| 0 <= i < raw.len() && raw[i] == '=';
            assert(line[i] == '=');
        }
    }
}

/// Of lines without a newline, every contribution is trimmed, holds no
/// newline and is not built in; every contribution of an environment file is
/// plain.
pub proof fn lemma_names_in_chars(lines: Seq<Seq<char>>, source: Source)
    requires
        forall|k: int| 0 <= k < lines.len() ==> !(#[trigger] lines[k]).contains('\n'),
    ensures
        forall|i: int|
            0 <= i < names_in(lines, source).len() ==> {
                let name = #[trigger] names_in(lines, source)[i];
                &&& trim(name) == name
                &&& !name.contains('\n')
                &&& !is_built_in(name)
                &&& source is EnvironmentFile ==> is_plain(name)
            },
    decreases lines.len(),
{
    if lines.len() > 0 {
        let head = line_names(lines[0], source);
        let tail = lines.skip(1);
        let rest = names_in(tail, source);
        assert forall|k: int| 0 <= k < tail.len() implies !(#[trigger] tail[k]).contains('\n') by {
            assert(tail[k] == lines[k + 1]);
        }
        lemma_names_in_chars(tail, source);
        lemma_candidate_chars(lines[0], source);
        assert forall|i: int| 0 <= i < (head + rest).len() implies {
            let name = #[trigger] (head + rest)[i];
            &&& trim(name) == name
            &&& !name.contains('\n')
            &&& !is_built_in(name)
            &&& source is EnvironmentFile ==> is_plain(name)
        } by {
            if i >= head.len() {
                assert((head + rest)[i] == rest[i - head.len()]);
            } else {
                assert((head + rest)[i] == candidate(lines[0], source)->0);
            }
        }
    }
}

} // verus!
