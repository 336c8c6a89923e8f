//! The environment file that a run produces: one `NAME=value` line per
//! required variable, and the law that ties writing it to reading it back.

use crate::extract::{
    collapse, is_plain, lemma_collapse_absorbs, lemma_collapse_members, lemma_names_in_chars,
    lemma_names_in_first, line_names, required_variables, source_names, Source,
};
use crate::text::{
    lemma_first_index_of_is, lemma_lines_first, lemma_lines_hold_no_newline, lines,
};
use vstd::prelude::*;

verus! {

/// The line that assigns `value` to `name`, with its newline.
pub open spec fn env_line(name: Seq<char>, value: Seq<char>) -> Seq<char> {
    name + seq!['='] + value + seq!['\n']
}

/// The text of an environment file that assigns `values[i]` to `names[i]`,
/// in order.
pub open spec fn env_text(names: Seq<Seq<char>>, values: Seq<Seq<char>>) -> Seq<char>
    recommends
        names.len() == values.len(),
    decreases names.len(),
{
    if names.len() == 0 {
        Seq::empty()
    } else {
        env_line(names[0], values[0]) + env_text(names.skip(1), values.skip(1))
    }
}

/// One more assignment is one more line at the end.
pub proof fn lemma_env_text_push(
    names: Seq<Seq<char>>,
    values: Seq<Seq<char>>,
    name: Seq<char>,
    value: Seq<char>,
)
    requires
        names.len() == values.len(),
    ensures
        env_text(names.push(name), values.push(value)) == env_text(names, values) + env_line(
            name,
            value,
        ),
    decreases names.len(),
{
    if names.len() == 0 {
        assert(names.push(name).skip(1) =~= Seq::<Seq<char>>::empty());
        assert(env_text(names.push(name).skip(1), values.push(value).skip(1))
            =~= Seq::<char>::empty());
        assert(env_text(names.push(name), values.push(value)) =~= env_line(name, value));
        assert(env_text(names, values) + env_line(name, value) =~= env_line(name, value));
    } else {
        lemma_env_text_push(names.skip(1), values.skip(1), name, value);
        assert(names.push(name).skip(1) =~= names.skip(1).push(name));
        assert(values.push(value).skip(1) =~= values.skip(1).push(value));
        assert(env_line(names[0], values[0]) + (env_text(names.skip(1), values.skip(1))
            + env_line(name, value)) =~= env_line(names[0], values[0]) + env_text(
            names.skip(1),
            values.skip(1),
        ) + env_line(name, value));
    }
}

/// The text of the environment file that assigns `values[i]` to `names[i]`:
/// `Some` exactly where every name has its value, so that a file is written
/// whole or not at all.
pub fn render(names: &Vec<String>, values: &Vec<String>) -> (text: Option<String>)
    ensures
        text is Some <==> names.len() == values.len(),
        text matches Some(t) ==> t@ == env_text(names.deep_view(), values.deep_view()),
{
    if names.len() != values.len() {
        return None;
    }
    let mut out = String::new();
    let mut i: usize = 0;
    proof {
        reveal_strlit("=");
        reveal_strlit("\n");
        assert("="@ =~= seq!['=']);
        assert("\n"@ =~= seq!['\n']);
        assert(names.deep_view().take(0) =~= Seq::<Seq<char>>::empty());
    }
    while i < names.len()
        invariant
            i <= names.len() == values.len(),
            "="@ == seq!['='],
            "\n"@ == seq!['\n'],
            out@ == env_text(names.deep_view().take(i as int), values.deep_view().take(i as int)),
        decreases names.len() - i,
    {
        proof {
            let ns = names.deep_view().take(i as int);
            let vs = values.deep_view().take(i as int);
            lemma_env_text_push(ns, vs, names[i as int]@, values[i as int]@);
            assert(ns.push(names[i as int]@) =~= names.deep_view().take(i + 1));
            assert(vs.push(values[i as int]@) =~= values.deep_view().take(i + 1));
        }
        out.append(names[i].as_str());
        out.append("=");
        out.append(values[i].as_str());
        out.append("\n");
        i += 1;
    }
    proof {
        assert(names.deep_view().take(i as int) =~= names.deep_view());
        assert(values.deep_view().take(i as int) =~= values.deep_view());
    }
    Some(out)
}

/// Writing and reading back: where every name is plain and no value holds a
/// newline, the keys of the written file are the names, in order.
pub proof fn lemma_written_names_read_back(names: Seq<Seq<char>>, values: Seq<Seq<char>>)
    requires
        names.len() == values.len(),
        forall|i: int| 0 <= i < names.len() ==> is_plain(#[trigger] names[i]),
        forall|i: int| 0 <= i < values.len() ==> !(#[trigger] values[i]).contains('\n'),
    ensures
        source_names(Some(env_text(names, values)), Source::EnvironmentFile) == names,
    decreases names.len(),
{
    let source = Source::EnvironmentFile;
    if names.len() == 0 {
        let nothing = Seq::<char>::empty();
        assert(lines(nothing) =~= seq![nothing] + Seq::empty());
        lemma_names_in_first(nothing, Seq::empty(), source);
        assert(names =~= Seq::<Seq<char>>::empty());
    } else {
        let name = names[0];
        let value = values[0];
        let line = name + seq!['='] + value;
        let rest = env_text(names.skip(1), values.skip(1));
        assert(is_plain(name));
        assert(!value.contains('\n'));
        assert(env_text(names, values) =~= line + seq!['\n'] + rest);
        assert forall|j: int| 0 <= j < line.len() implies line[j] != '\n' by {
            if j < name.len() {
                assert(name.contains(line[j]));
            } else if j > name.len() {
                assert(value[j - name.len() - 1] == line[j]);
                assert(value.contains(line[j]));
            }
        }
        lemma_lines_first(line, rest);
        lemma_names_in_first(line, lines(rest), source);
        assert forall|j: int| 0 <= j < name.len() implies line[j] != '=' by {
            assert(name.contains(line[j]));
        }
        lemma_first_index_of_is(line, '=', name.len() as int);
        assert(line.take(name.len() as int) =~= name);
        assert(line_names(line, source) =~= seq![name]);
        assert forall|i: int| 0 <= i < names.skip(1).len() implies is_plain(
            #[trigger] names.skip(1)[i],
        ) by {
            assert(names.skip(1)[i] == names[i + 1]);
        }
        assert forall|i: int| 0 <= i < values.skip(1).len() implies !(#[trigger] values.skip(
            1,
        )[i]).contains('\n') by {
            assert(values.skip(1)[i] == values[i + 1]);
        }
        lemma_written_names_read_back(names.skip(1), values.skip(1));
        assert(seq![name] + names.skip(1) =~= names);
    }
}

/// The round trip of a run. Let `names` be the required variables of a bundle
/// and let its environment file be replaced by the one that assigns a value
/// to each of them. Where no reference of the service-definition file holds
/// `=` and no value holds a newline, the new file's keys are `names`; and
/// extracting again gives `names` back exactly where the service-definition
/// file contributes at most one distinct run of names (none, or one name
/// repeated). With two different references in that file the names written
/// into the environment file follow them a second time.
pub proof fn lemma_round_trip(
    compose: Option<Seq<char>>,
    env: Option<Seq<char>>,
    values: Seq<Seq<char>>,
)
    requires
        values.len() == required_variables(compose, env).len(),
        forall|i: int| 0 <= i < values.len() ==> !(#[trigger] values[i]).contains('\n'),
        forall|i: int|
            0 <= i < source_names(compose, Source::ServiceDefinition).len() ==> !(
            #[trigger] source_names(compose, Source::ServiceDefinition)[i]).contains('='),
    ensures
        ({
            let names = required_variables(compose, env);
            let written = Some(env_text(names, values));
            &&& source_names(written, Source::EnvironmentFile) == names
            &&& required_variables(compose, written) == names <==> collapse(
                source_names(compose, Source::ServiceDefinition),
            ).len() <= 1
        }),
{
    let first = source_names(compose, Source::ServiceDefinition);
    let second = source_names(env, Source::EnvironmentFile);
    let all = first + second;
    let names = required_variables(compose, env);
    if compose is Some {
        lemma_lines_hold_no_newline(compose->0);
        lemma_names_in_chars(lines(compose->0), Source::ServiceDefinition);
    }
    if env is Some {
        lemma_lines_hold_no_newline(env->0);
        lemma_names_in_chars(lines(env->0), Source::EnvironmentFile);
    }
    lemma_collapse_members(all);
    assert forall|i: int| 0 <= i < names.len() implies is_plain(#[trigger] names[i]) by {
        assert(names.contains(names[i]));
        let j = choose|j: int| 0 <= j < all.len() && all[j] == names[i];
        if j < first.len() {
            assert(all[j] == first[j]);
        } else {
            assert(all[j] == second[j - first.len()]);
        }
    }
    lemma_written_names_read_back(names, values);
    lemma_collapse_absorbs(first, second);
}

} // verus!
