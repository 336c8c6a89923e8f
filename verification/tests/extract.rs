use docker_cli::extract::{built_in, dedup, find_env_vars, line_candidate, scan, Source};
use docker_cli::text::{chars_of, whitespace};

fn names(items: &[&str]) -> Vec<String> {
    items.iter().map(|s| s.to_string()).collect()
}

#[test]
fn no_files_no_variables() {
    assert_eq!(find_env_vars(None, None), Vec::<String>::new());
}

#[test]
fn empty_files_no_variables() {
    assert_eq!(find_env_vars(Some(""), Some("")), Vec::<String>::new());
    assert_eq!(find_env_vars(Some("\n\n"), Some("\n")), Vec::<String>::new());
}

#[test]
fn default_value_is_stripped() {
    assert_eq!(find_env_vars(Some("image: x:${TAG:-latest}"), None), names(&["TAG"]));
    assert_eq!(find_env_vars(Some("image: x:${TAG:latest}"), None), names(&["TAG"]));
}

#[test]
fn plain_reference_is_found() {
    assert_eq!(find_env_vars(Some("    image: repo/app:${VERSION}\n"), None), names(&["VERSION"]));
}

#[test]
fn home_is_excluded() {
    assert_eq!(find_env_vars(Some("volumes:\n  - ${HOME}/data:/data\n"), None), names(&[]));
}

#[test]
fn every_built_in_name_is_excluded_from_both_files() {
    let compose = "a: ${PWD}\nb: ${HOME}\nc: ${USER}\nd: ${PATH}\ne: ${HOSTNAME}\nf: ${PORT}\n";
    let env = "PWD=1\nHOME=2\nUSER=3\nPATH=4\nHOSTNAME=5\nTOKEN=6\n";
    assert_eq!(find_env_vars(Some(compose), Some(env)), names(&["PORT", "TOKEN"]));
}

#[test]
fn built_in_names_are_matched_exactly() {
    let compose = "a: ${home}\nb: ${HOME2}\nc: ${PW}\nd: ${HOSTNAMES}\n";
    assert_eq!(
        find_env_vars(Some(compose), None),
        names(&["home", "HOME2", "PW", "HOSTNAMES"])
    );
}

#[test]
fn built_in_predicate() {
    for name in ["PWD", "HOME", "USER", "PATH", "HOSTNAME"] {
        assert!(built_in(name), "{}", name);
    }
    for name in ["", "pwd", "HOME ", "USERS", "PAT", "HOST", "API_KEY"] {
        assert!(!built_in(name), "{}", name);
    }
}

#[test]
fn adjacent_repeats_in_the_environment_file_collapse() {
    assert_eq!(find_env_vars(None, Some("API_KEY=abc\nAPI_KEY=def")), names(&["API_KEY"]));
}

#[test]
fn separated_repeats_both_remain() {
    assert_eq!(
        find_env_vars(None, Some("API_KEY=abc\nOTHER=1\nAPI_KEY=def")),
        names(&["API_KEY", "OTHER", "API_KEY"])
    );
}

#[test]
fn a_line_without_a_key_does_not_separate_repeats() {
    assert_eq!(
        find_env_vars(None, Some("API_KEY=abc\n# a comment\nAPI_KEY=def\n")),
        names(&["API_KEY"])
    );
}

#[test]
fn repeats_across_the_two_files_collapse_only_where_they_meet() {
    assert_eq!(find_env_vars(Some("x: ${A}\n"), Some("A=1\n")), names(&["A"]));
    assert_eq!(
        find_env_vars(Some("x: ${A}\ny: ${B}\n"), Some("A=1\nB=2\n")),
        names(&["A", "B", "A", "B"])
    );
}

#[test]
fn service_definition_comes_before_environment_file() {
    assert_eq!(
        find_env_vars(Some("x: ${FROM_COMPOSE}\n"), Some("FROM_ENV=1\n")),
        names(&["FROM_COMPOSE", "FROM_ENV"])
    );
}

#[test]
fn only_the_first_reference_of_a_line_counts() {
    assert_eq!(find_env_vars(Some("url: ${HOST_NAME}:${PORT}/x"), None), names(&["HOST_NAME"]));
}

#[test]
fn a_built_in_first_reference_hides_the_rest_of_its_line() {
    assert_eq!(find_env_vars(Some("path: ${HOME}/${SUBDIR}"), None), names(&[]));
}

#[test]
fn empty_reference_yields_the_empty_name() {
    assert_eq!(find_env_vars(Some("x: ${}"), None), names(&[""]));
    assert_eq!(find_env_vars(Some("x: ${  }"), None), names(&[""]));
    assert_eq!(find_env_vars(Some("x: ${:-fallback}"), None), names(&[""]));
}

#[test]
fn empty_key_yields_the_empty_name() {
    assert_eq!(find_env_vars(None, Some("=value\n")), names(&[""]));
}

#[test]
fn unclosed_reference_runs_to_the_end_of_the_line() {
    assert_eq!(find_env_vars(Some("x: ${VAR and more\nnext: 1"), None), names(&["VAR and more"]));
    assert_eq!(find_env_vars(Some("x: ${VAR:-dflt and more"), None), names(&["VAR"]));
    assert_eq!(find_env_vars(Some("x: ${"), None), names(&[""]));
}

#[test]
fn a_token_runs_to_the_next_closing_brace() {
    assert_eq!(find_env_vars(Some("x: ${A${B}"), None), names(&["A${B"]));
    assert_eq!(find_env_vars(Some("x: }${A}}"), None), names(&["A"]));
}

#[test]
fn a_lone_dollar_or_brace_is_no_reference() {
    assert_eq!(find_env_vars(Some("a: $A\nb: {B}\nc: $ {C}\nd: $"), None), names(&[]));
    assert_eq!(find_env_vars(Some("a: $${A}"), None), names(&["A"]));
}

#[test]
fn names_are_trimmed() {
    assert_eq!(find_env_vars(Some("x: ${ NAME }"), None), names(&["NAME"]));
    assert_eq!(find_env_vars(Some("x: ${\tNAME :-d}"), None), names(&["NAME"]));
    assert_eq!(find_env_vars(None, Some("  KEY  = value\n")), names(&["KEY"]));
    assert_eq!(find_env_vars(None, Some("\u{a0}KEY\u{2003}=v\n")), names(&["KEY"]));
    assert_eq!(find_env_vars(None, Some("MY KEY=v\n")), names(&["MY KEY"]));
}

#[test]
fn trimming_can_make_a_built_in_name() {
    assert_eq!(find_env_vars(Some("x: ${ HOME }"), Some(" PATH =1\n")), names(&[]));
}

#[test]
fn key_ends_at_the_first_equals_sign() {
    assert_eq!(find_env_vars(None, Some("URL=http://x/?a=b\n")), names(&["URL"]));
}

#[test]
fn lines_without_equals_are_skipped() {
    assert_eq!(
        find_env_vars(None, Some("# comment\nA=1\nnot a pair\n\nB=2")),
        names(&["A", "B"])
    );
}

#[test]
fn carriage_returns_do_not_reach_the_names() {
    assert_eq!(find_env_vars(None, Some("A=1\r\nB=2\r\n")), names(&["A", "B"]));
    assert_eq!(find_env_vars(Some("x: ${A\r\ny: ${B}\r\n"), None), names(&["A", "B"]));
}

#[test]
fn names_outside_ascii_are_kept_whole() {
    assert_eq!(find_env_vars(Some("größe: ${GRÖSSE:-1}"), None), names(&["GRÖSSE"]));
    assert_eq!(find_env_vars(None, Some("ключ=значение\n")), names(&["ключ"]));
    assert_eq!(find_env_vars(Some("😀${😀}"), None), names(&["😀"]));
}

#[test]
fn equals_in_a_service_definition_is_no_key() {
    assert_eq!(find_env_vars(Some("A=1\n"), None), names(&[]));
    assert_eq!(find_env_vars(None, Some("x: ${A}\n")), names(&[]));
    assert_eq!(find_env_vars(None, Some("x=${A}\n")), names(&["x"]));
}

#[test]
fn a_reference_may_hold_an_equals_sign() {
    assert_eq!(find_env_vars(Some("x: ${A=B}"), None), names(&["A=B"]));
}

#[test]
fn line_candidate_of_each_source() {
    assert_eq!(
        line_candidate("image: x:${TAG:-latest}", Source::ServiceDefinition),
        Some("TAG".to_string())
    );
    assert_eq!(line_candidate("image: x", Source::ServiceDefinition), None);
    assert_eq!(
        line_candidate("path: ${HOME}", Source::ServiceDefinition),
        Some("HOME".to_string())
    );
    assert_eq!(line_candidate(" KEY = v", Source::EnvironmentFile), Some("KEY".to_string()));
    assert_eq!(line_candidate("KEY", Source::EnvironmentFile), None);
    assert_eq!(line_candidate("${A}", Source::EnvironmentFile), None);
}

#[test]
fn scan_appends_without_collapsing() {
    let mut found = names(&["FIRST"]);
    scan("a: ${A}\nb: ${A}\nc: ${HOME}\n", Source::ServiceDefinition, &mut found);
    assert_eq!(found, names(&["FIRST", "A", "A"]));
    scan("A=1\nB=2", Source::EnvironmentFile, &mut found);
    assert_eq!(found, names(&["FIRST", "A", "A", "A", "B"]));
}

#[test]
fn dedup_reduces_each_run_to_its_first() {
    assert_eq!(dedup(&names(&[])), names(&[]));
    assert_eq!(dedup(&names(&["A"])), names(&["A"]));
    assert_eq!(dedup(&names(&["A", "A", "A"])), names(&["A"]));
    assert_eq!(
        dedup(&names(&["A", "A", "B", "A", "C", "C", "a"])),
        names(&["A", "B", "A", "C", "a"])
    );
}

#[test]
fn dedup_twice_is_dedup_once() {
    let input = names(&["X", "X", "Y", "Y", "Y", "X", "", "", "Z"]);
    let once = dedup(&input);
    assert_eq!(dedup(&once), once);
    assert_eq!(once, names(&["X", "Y", "X", "", "Z"]));
}

#[test]
fn extraction_never_yields_neighbours_that_are_equal_or_built_in_names() {
    let compose = "a: ${A}\nb: ${A}\nc: ${PWD}\nd: ${B}\ne: ${B:-1}\n";
    let env = "B=1\nB=2\nUSER=me\nC=3\nA=4\nA=5\n";
    let found = find_env_vars(Some(compose), Some(env));
    assert_eq!(found, names(&["A", "B", "C", "A"]));
    for pair in found.windows(2) {
        assert_ne!(pair[0], pair[1]);
    }
    for name in &found {
        assert!(!built_in(name));
    }
}

#[test]
fn whitespace_is_the_unicode_property() {
    let white = [
        '\u{9}', '\u{a}', '\u{b}', '\u{c}', '\u{d}', ' ', '\u{85}', '\u{a0}', '\u{1680}',
        '\u{2000}', '\u{2005}', '\u{200a}', '\u{2028}', '\u{2029}', '\u{202f}', '\u{205f}',
        '\u{3000}',
    ];
    for c in white {
        assert!(whitespace(c), "{:?}", c);
    }
    for c in ['a', '0', '_', '\u{8}', '\u{e}', '\u{200b}', '\u{180e}', '\u{feff}', '=', '\u{2060}'] {
        assert!(!whitespace(c), "{:?}", c);
    }
}

#[test]
fn whitespace_agrees_with_std_on_every_char() {
    let mut code: u32 = 0;
    while code <= 0x10ffff {
        if let Some(c) = char::from_u32(code) {
            assert_eq!(whitespace(c), c.is_whitespace(), "{:x}", code);
        }
        code += 1;
    }
}

#[test]
fn chars_of_lists_the_characters() {
    assert_eq!(chars_of(""), Vec::<char>::new());
    assert_eq!(chars_of("a${ü}"), vec!['a', '$', '{', 'ü', '}']);
}

#[test]
fn extraction_agrees_with_line_by_line_reading() {
    let compose = "services:\n  web:\n    image: nginx:${NGINX_TAG:-stable}\n    ports:\n      - \"${WEB_PORT}:80\"\n    environment:\n      - HOME=${HOME}\n      - KEY=${API_KEY}\n      - SECOND=${API_KEY}\n";
    let env = "WEB_PORT=8080\nAPI_KEY=\n\nDEBUG = true\n";
    assert_eq!(
        find_env_vars(Some(compose), Some(env)),
        names(&["NGINX_TAG", "WEB_PORT", "API_KEY", "WEB_PORT", "API_KEY", "DEBUG"])
    );
}
