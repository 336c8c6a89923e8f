use docker_cli::docker::{DockerManager, Entry};
use docker_cli::error::Error;
use docker_cli::session::{Action, Event, Outcome, Session};
use docker_cli::utils::TempDirManager;

const URL: &str = "https://example.org/bundles";

fn scratch() -> String {
    TempDirManager::under(Some("/home/alice".to_string())).get_temp_dir().unwrap()
}

fn begin() -> Session {
    let temp = TempDirManager::under(Some("/home/alice".to_string()));
    Session::start(DockerManager::with_temp_dir(temp), URL.to_string())
}

fn bundle(root: &str, name: &str, compose: Option<&str>, env: Option<&str>) -> Entry {
    Entry {
        path: format!("{}/{}", root, name),
        name: Some(name.to_string()),
        is_dir: true,
        compose: compose.map(|s| s.to_string()),
        env: env.map(|s| s.to_string()),
    }
}

fn listing(root: &str) -> Vec<Entry> {
    vec![
        bundle(root, "web", Some("image: nginx:${TAG:-stable}\n"), Some("PORT=80\n")),
        Entry {
            path: format!("{}/notes.txt", root),
            name: Some("notes.txt".to_string()),
            is_dir: false,
            compose: None,
            env: None,
        },
        bundle(root, "static", None, None),
    ]
}

fn local_session_at_choice() -> Session {
    let s = begin().advance(Event::LocalRoot { present: true });
    s.advance(Event::Discovered { entries: listing("docker") })
}

#[test]
fn a_run_begins_by_probing_the_local_root() {
    let s = begin();
    assert!(!s.is_finished());
    match s.pending() {
        Action::ProbeLocalRoot { root } => assert_eq!(root, "docker"),
        other => panic!("{:?}", other),
    }
}

#[test]
fn a_present_local_root_is_listed() {
    let s = begin().advance(Event::LocalRoot { present: true });
    match s.pending() {
        Action::Discover { root } => assert_eq!(root, "docker"),
        other => panic!("{:?}", other),
    }
}

#[test]
fn without_local_root_the_repository_is_acquired_then_listed() {
    let s = begin().advance(Event::LocalRoot { present: false });
    match s.pending() {
        Action::Acquire { url, scratch: dir } => {
            assert_eq!(url, URL);
            assert_eq!(dir, scratch());
        }
        other => panic!("{:?}", other),
    }
    let s = s.advance(Event::Acquired);
    match s.pending() {
        Action::Discover { root } => assert_eq!(root, scratch()),
        other => panic!("{:?}", other),
    }
}

#[test]
fn discovered_bundles_are_offered_by_name() {
    let s = local_session_at_choice();
    match s.pending() {
        Action::Choose { names } => {
            assert_eq!(names, vec!["web".to_string(), "static".to_string()])
        }
        other => panic!("{:?}", other),
    }
}

#[test]
fn no_bundles_is_a_clean_end() {
    let s = begin().advance(Event::LocalRoot { present: true });
    let s = s.advance(Event::Discovered { entries: vec![] });
    assert!(s.is_finished());
    match s.pending() {
        Action::Finish { outcome, path, release } => {
            assert_eq!(outcome, Outcome::NoBundles);
            assert_eq!(outcome.exit_code(), 0);
            assert_eq!(path, None);
            assert_eq!(release, None);
        }
        other => panic!("{:?}", other),
    }
}

#[test]
fn the_whole_course_of_a_local_run() {
    let s = local_session_at_choice().advance(Event::Chosen { index: 0 });
    match s.pending() {
        Action::Prompt { name, answered } => {
            assert_eq!(name, "TAG");
            assert_eq!(answered, 0);
        }
        other => panic!("{:?}", other),
    }
    let s = s.advance(Event::Answered { value: "1.27".to_string() });
    match s.pending() {
        Action::Prompt { name, answered } => {
            assert_eq!(name, "PORT");
            assert_eq!(answered, 1);
        }
        other => panic!("{:?}", other),
    }
    let s = s.advance(Event::Answered { value: "8080".to_string() });
    match s.pending() {
        Action::Write { dir, text } => {
            assert_eq!(dir, "docker/web");
            assert_eq!(text, "TAG=1.27\nPORT=8080\n");
        }
        other => panic!("{:?}", other),
    }
    assert!(!s.is_finished());
    let s = s.advance(Event::Written);
    assert!(s.is_finished());
    match s.pending() {
        Action::Finish { outcome, path, release } => {
            assert_eq!(outcome, Outcome::Ready);
            assert_eq!(outcome.exit_code(), 0);
            assert_eq!(path, Some("docker/web".to_string()));
            assert_eq!(release, None);
        }
        other => panic!("{:?}", other),
    }
}

#[test]
fn a_bundle_without_variables_is_ready_at_once() {
    let s = local_session_at_choice().advance(Event::Chosen { index: 1 });
    assert!(s.is_finished());
    match s.pending() {
        Action::Finish { outcome, path, release } => {
            assert_eq!(outcome, Outcome::Ready);
            assert_eq!(path, Some("docker/static".to_string()));
            assert_eq!(release, None);
        }
        other => panic!("{:?}", other),
    }
}

#[test]
fn a_remote_run_names_the_scratch_directory_when_it_ends() {
    let s = begin().advance(Event::LocalRoot { present: false }).advance(Event::Acquired);
    let s = s.advance(Event::Discovered { entries: listing(&scratch()) });
    let s = s.advance(Event::Chosen { index: 1 });
    match s.pending() {
        Action::Finish { outcome, path, release } => {
            assert_eq!(outcome, Outcome::Ready);
            assert_eq!(path, Some(format!("{}/static", scratch())));
            assert_eq!(release, Some(scratch()));
        }
        other => panic!("{:?}", other),
    }
}

#[test]
fn interruption_mid_prompt_asks_for_cleanup_and_for_no_write() {
    let s = begin().advance(Event::LocalRoot { present: false }).advance(Event::Acquired);
    let s = s.advance(Event::Discovered { entries: listing(&scratch()) });
    let s = s.advance(Event::Chosen { index: 0 });
    let s = s.advance(Event::Answered { value: "1.27".to_string() });
    let s = s.advance(Event::Interrupted);
    assert!(s.is_finished());
    match s.pending() {
        Action::Finish { outcome, path, release } => {
            assert_eq!(outcome, Outcome::Interrupted);
            assert_eq!(outcome.exit_code(), 0);
            assert_eq!(path, None);
            assert_eq!(release, Some(scratch()));
        }
        other => panic!("{:?}", other),
    }
    let s = s.advance(Event::Answered { value: "8080".to_string() });
    assert!(matches!(s.pending(), Action::Finish { outcome: Outcome::Interrupted, .. }));
}

#[test]
fn interruption_of_a_local_run_names_no_scratch_directory() {
    let s = local_session_at_choice().advance(Event::Chosen { index: 0 });
    let s = s.advance(Event::Interrupted);
    match s.pending() {
        Action::Finish { outcome, path, release } => {
            assert_eq!(outcome, Outcome::Interrupted);
            assert_eq!(path, None);
            assert_eq!(release, None);
        }
        other => panic!("{:?}", other),
    }
}

#[test]
fn interruption_during_acquisition_names_the_scratch_directory() {
    let s = begin().advance(Event::LocalRoot { present: false }).advance(Event::Interrupted);
    match s.pending() {
        Action::Finish { outcome, release, .. } => {
            assert_eq!(outcome, Outcome::Interrupted);
            assert_eq!(release, Some(scratch()));
        }
        other => panic!("{:?}", other),
    }
}

#[test]
fn every_kind_of_failure_ends_the_run_with_a_nonzero_code() {
    for error in [Error::Io, Error::Acquisition, Error::InteractionAborted] {
        let s = begin().advance(Event::LocalRoot { present: false });
        let s = s.advance(Event::Failed { error });
        assert!(s.is_finished());
        match s.pending() {
            Action::Finish { outcome, path, release } => {
                assert_eq!(outcome, Outcome::Failed(error));
                assert_eq!(outcome.exit_code(), 1);
                assert_eq!(path, None);
                assert_eq!(release, Some(scratch()));
            }
            other => panic!("{:?}", other),
        }
    }
}

#[test]
fn exit_codes() {
    assert_eq!(Outcome::Ready.exit_code(), 0);
    assert_eq!(Outcome::NoBundles.exit_code(), 0);
    assert_eq!(Outcome::Interrupted.exit_code(), 0);
    assert_eq!(Outcome::Failed(Error::Io).exit_code(), 1);
    assert_eq!(Outcome::Failed(Error::Acquisition).exit_code(), 1);
    assert_eq!(Outcome::Failed(Error::InteractionAborted).exit_code(), 1);
}

#[test]
fn a_choice_out_of_range_is_an_aborted_interaction() {
    let s = local_session_at_choice().advance(Event::Chosen { index: 2 });
    assert!(matches!(
        s.pending(),
        Action::Finish { outcome: Outcome::Failed(Error::InteractionAborted), path: None, .. }
    ));
}

#[test]
fn an_event_out_of_turn_is_ignored() {
    let s = begin().advance(Event::Written);
    assert!(matches!(s.pending(), Action::ProbeLocalRoot { .. }));
    let s = s.advance(Event::Answered { value: "x".to_string() });
    assert!(matches!(s.pending(), Action::ProbeLocalRoot { .. }));
    let s = s.advance(Event::LocalRoot { present: true });
    let s = s.advance(Event::Acquired).advance(Event::Chosen { index: 0 });
    assert!(matches!(s.pending(), Action::Discover { .. }));
    let s = local_session_at_choice().advance(Event::Chosen { index: 0 });
    let s = s.advance(Event::Written).advance(Event::LocalRoot { present: false });
    match s.pending() {
        Action::Prompt { name, answered } => {
            assert_eq!(name, "TAG");
            assert_eq!(answered, 0);
        }
        other => panic!("{:?}", other),
    }
}

#[test]
fn a_finished_run_stays_finished() {
    let s = local_session_at_choice().advance(Event::Chosen { index: 1 });
    let s = s.advance(Event::Failed { error: Error::Io }).advance(Event::Interrupted);
    let s = s.advance(Event::LocalRoot { present: false });
    match s.pending() {
        Action::Finish { outcome, path, release } => {
            assert_eq!(outcome, Outcome::Ready);
            assert_eq!(path, Some("docker/static".to_string()));
            assert_eq!(release, None);
        }
        other => panic!("{:?}", other),
    }
}

#[test]
fn pending_does_not_change_the_session() {
    let s = local_session_at_choice().advance(Event::Chosen { index: 0 });
    let first = format!("{:?}", s.pending());
    let second = format!("{:?}", s.pending());
    assert_eq!(first, second);
}
