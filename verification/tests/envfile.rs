use docker_cli::docker::DockerManager;
use docker_cli::envfile::render;
use docker_cli::extract::find_env_vars;
use docker_cli::utils::TempDirManager;

fn texts(items: &[&str]) -> Vec<String> {
    items.iter().map(|s| s.to_string()).collect()
}

fn manager() -> DockerManager {
    DockerManager::with_temp_dir(TempDirManager::under(Some("/home/alice".to_string())))
}

#[test]
fn render_writes_one_line_per_variable() {
    assert_eq!(
        render(&texts(&["A", "B"]), &texts(&["1", "two words"])),
        Some("A=1\nB=two words\n".to_string())
    );
}

#[test]
fn render_of_nothing_is_empty() {
    assert_eq!(render(&texts(&[]), &texts(&[])), Some(String::new()));
}

#[test]
fn render_keeps_empty_values_and_names() {
    assert_eq!(render(&texts(&["A", ""]), &texts(&["", "x"])), Some("A=\n=x\n".to_string()));
}

#[test]
fn render_needs_a_value_for_every_name() {
    assert_eq!(render(&texts(&["A", "B"]), &texts(&["1"])), None);
    assert_eq!(render(&texts(&["A"]), &texts(&["1", "2"])), None);
    assert_eq!(render(&texts(&[]), &texts(&["1"])), None);
}

#[test]
fn create_env_file_gives_the_text_of_the_file() {
    let m = manager();
    assert_eq!(
        m.create_env_file(&texts(&["TAG", "PORT"]), &texts(&["1.2", "80"])),
        Some("TAG=1.2\nPORT=80\n".to_string())
    );
    assert_eq!(m.create_env_file(&texts(&["TAG", "PORT"]), &texts(&["1.2"])), None);
}

#[test]
fn written_names_are_read_back() {
    let written = texts(&["API_KEY", "Größe", "", "WITH SPACE"]);
    let values = texts(&["a=b", "", "x", "  padded  "]);
    let text = render(&written, &values).unwrap();
    assert_eq!(find_env_vars(None, Some(&text)), written);
}

#[test]
fn round_trip_with_only_an_environment_file() {
    let env = "A=1\nB=2\nA=3\n";
    let found = find_env_vars(None, Some(env));
    let values = texts(&["x", "y", "z"]);
    let text = render(&found, &values).unwrap();
    assert_eq!(text, "A=x\nB=y\nA=z\n");
    assert_eq!(find_env_vars(None, Some(&text)), found);
}

#[test]
fn round_trip_with_one_reference_in_the_service_definition() {
    let compose = "image: x:${TAG}\nother: ${TAG:-1}\n";
    let env = "TAG=1\nPORT=80\n";
    let found = find_env_vars(Some(compose), Some(env));
    assert_eq!(found, texts(&["TAG", "PORT"]));
    let text = render(&found, &texts(&["2", "81"])).unwrap();
    assert_eq!(find_env_vars(Some(compose), Some(&text)), found);
}

#[test]
fn round_trip_fails_with_two_references_in_the_service_definition() {
    let compose = "a: ${A}\nb: ${B}\n";
    let found = find_env_vars(Some(compose), None);
    assert_eq!(found, texts(&["A", "B"]));
    let text = render(&found, &texts(&["1", "2"])).unwrap();
    assert_eq!(find_env_vars(Some(compose), Some(&text)), texts(&["A", "B", "A", "B"]));
}

#[test]
fn a_name_with_an_equals_sign_is_not_read_back() {
    let found = find_env_vars(Some("x: ${A=B}"), None);
    assert_eq!(found, texts(&["A=B"]));
    let text = render(&found, &texts(&["v"])).unwrap();
    assert_eq!(find_env_vars(None, Some(&text)), texts(&["A"]));
}
