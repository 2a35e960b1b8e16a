use pyproject_udeps::text::trimmed;
use pyproject_udeps::infra::env::Env;
use pyproject_udeps::infra::fs::{FileSystem, PyFile, WalkFilters};
use pyproject_udeps::infra::process::{CommandRunner, Execution, NullResponse};
use pyproject_udeps::infra::util::OutputListener;

fn files(list: &[(&str, &str)]) -> Vec<(String, String)> {
    list.iter()
        .map(|(p, c)| ((*p).to_string(), (*c).to_string()))
        .collect()
}

fn sorted_paths(found: Vec<PyFile>) -> Vec<String> {
    let mut paths: Vec<String> = found.into_iter().map(|f| f.path).collect();
    paths.sort();
    paths
}

#[test]
fn nulled_env_returns_configured_vars_only() {
    let env = Env::create_null(vec![("VIRTUAL_ENV".to_string(), "/venvs/demo".to_string())]);
    assert_eq!(env.var("VIRTUAL_ENV"), Some("/venvs/demo".to_string()));
    assert_eq!(env.var("UNSET"), None);
}

#[test]
fn nulled_env_later_binding_wins() {
    let env = Env::create_null(vec![
        ("VIRTUAL_ENV".to_string(), "/a".to_string()),
        ("VIRTUAL_ENV".to_string(), "/b".to_string()),
    ]);
    assert_eq!(env.var("VIRTUAL_ENV"), Some("/b".to_string()));
}

#[test]
fn nulled_walk_sends_python_files_under_root() {
    let fs = FileSystem::create_null(files(&[
        ("main.py", "import os\n"),
        ("pkg/util.pyi", ""),
        ("README.md", "not python"),
        ("/elsewhere/other.py", ""),
    ]));
    let paths = sorted_paths(fs.walk_python_files(".", WalkFilters::Standard));
    assert_eq!(paths, vec!["main.py", "pkg/util.pyi"]);
}

#[test]
fn nulled_walk_from_dot_slash_matches_relative_paths() {
    let fs = FileSystem::create_null(files(&[("main.py", ""), ("/abs/x.py", "")]));
    let paths = sorted_paths(fs.walk_python_files("./", WalkFilters::Standard));
    assert_eq!(paths, vec!["main.py"]);
}

#[test]
fn nulled_walk_scopes_to_the_given_root() {
    let fs = FileSystem::create_null(files(&[("/venv/lib/site.py", ""), ("/project/main.py", "")]));
    let paths = sorted_paths(fs.walk_python_files("/venv", WalkFilters::Unfiltered));
    assert_eq!(paths, vec!["/venv/lib/site.py"]);
}

#[test]
fn nulled_walk_skips_dotfiles_without_extension() {
    let fs = FileSystem::create_null(files(&[(".py", ""), ("a.pyx", ""), ("b.py", "")]));
    let paths = sorted_paths(fs.walk_python_files(".", WalkFilters::Standard));
    assert_eq!(paths, vec!["b.py"]);
}

#[test]
fn nulled_read_returns_configured_contents() {
    let fs = FileSystem::create_null(files(&[("a.py", "import json\n")]));
    assert_eq!(fs.read_to_string_lossy("a.py").unwrap(), "import json\n");
}

#[test]
fn nulled_read_compares_paths_by_component() {
    let fs = FileSystem::create_null(files(&[("pkg//a.py", "x")]));
    assert_eq!(fs.read_to_string_lossy("pkg/a.py").unwrap(), "x");
}

#[test]
fn nulled_read_of_missing_file_is_a_self_naming_error() {
    let fs = FileSystem::create_null(vec![]);
    let err = fs.read_to_string_lossy("ghost.py").unwrap_err();
    assert!(err.message().contains("Nulled FileSystem"), "{err:?}");
}

#[test]
fn nulled_exists_covers_files_and_directories() {
    let fs = FileSystem::create_null(files(&[("/venv/lib/site.py", "")]));
    assert!(fs.path_exists("/venv/lib/site.py"));
    assert!(fs.path_exists("/venv"));
    assert!(!fs.path_exists("/other"));
}

#[test]
fn later_file_at_the_same_path_wins() {
    let fs = FileSystem::create_null(files(&[("a.py", "one"), ("a.py", "two")]));
    assert_eq!(fs.read_to_string_lossy("a.py").unwrap(), "two");
    assert_eq!(fs.walk_python_files(".", WalkFilters::Standard).len(), 1);
}

#[test]
fn nulled_runner_answers_configured_command() {
    let mut runner = CommandRunner::create_null(vec![(
        "poetry env info -p".to_string(),
        NullResponse::Stdout("/venvs/demo".into()),
    )]);
    let out = runner.run("poetry", &["env", "info", "-p"]).unwrap();
    assert_eq!(out, "/venvs/demo");
}

#[test]
fn nulled_runner_fails_loudly_on_unconfigured_command() {
    let mut runner = CommandRunner::create_null(vec![]);
    let err = runner.run("uv", &["python", "find"]).unwrap_err();
    assert!(err.message().contains("no response configured"), "{err:?}");
    assert!(err.message().contains("uv python find"), "{err:?}");
}

#[test]
fn nulled_runner_returns_configured_failure() {
    let mut runner = CommandRunner::create_null(vec![(
        "poetry env info -p".to_string(),
        NullResponse::Failure("poetry could not find a venv".into()),
    )]);
    let err = runner.run("poetry", &["env", "info", "-p"]).unwrap_err();
    assert!(err.message().contains("poetry could not find a venv"));
}

#[test]
fn command_without_arguments_renders_with_a_trailing_space() {
    let mut runner = CommandRunner::create_null(vec![(
        "false ".to_string(),
        NullResponse::Stdout("ok".into()),
    )]);
    assert_eq!(runner.run("false", &[]).unwrap(), "ok");
}

#[test]
fn tracker_records_executions_in_both_modes() {
    let mut runner =
        CommandRunner::create_null(vec![("echo hi".to_string(), NullResponse::Stdout(String::new()))]);
    let tracker = runner.track_runs();
    let _ = runner.run("echo", &["hi"]);
    let _ = runner.run("not", &["configured"]);
    assert_eq!(
        tracker.data(runner.runs()),
        vec![
            Execution {
                command: "echo hi".into()
            },
            Execution {
                command: "not configured".into()
            },
        ]
    );
}

#[test]
fn tracker_records_emitted_data() {
    let mut listener = OutputListener::new();
    let tracker = listener.track();
    listener.emit("one");
    listener.emit("two");
    assert_eq!(tracker.data(&listener), vec!["one", "two"]);
}

#[test]
fn emit_without_tracker_is_a_noop() {
    let mut listener = OutputListener::new();
    listener.emit("unobserved");
    let tracker = listener.track();
    assert_eq!(tracker.data(&listener), Vec::<&str>::new());
}

#[test]
fn dropped_trackers_stop_recording() {
    let mut listener = OutputListener::new();
    let tracker = listener.track();
    listener.release(tracker);
    listener.emit("after drop");
    let fresh = listener.track();
    assert_eq!(fresh.data(&listener), Vec::<&str>::new());
}

#[test]
fn nulled_runner_trims_the_configured_stdout() {
    let mut runner = CommandRunner::create_null(vec![(
        "poetry env info -p".to_string(),
        NullResponse::Stdout("  /venvs/demo\n".into()),
    )]);
    assert_eq!(runner.run("poetry", &["env", "info", "-p"]).unwrap(), "/venvs/demo");
}

#[test]
fn runs_before_tracking_are_not_recorded() {
    let mut runner = CommandRunner::create_null(vec![]);
    let _ = runner.run("early", &["run"]);
    let tracker = runner.track_runs();
    let _ = runner.run("late", &["run"]);
    assert_eq!(
        tracker.data(runner.runs()),
        vec![Execution {
            command: "late run".into()
        }]
    );
}

#[test]
fn nulled_env_without_variables_holds_none() {
    let env = Env::create_null(vec![]);
    assert_eq!(env.var("PATH"), None);
}

#[test]
fn nulled_filesystem_reads_back_every_configured_file() {
    let fs = FileSystem::create_null(files(&[("a.py", "one"), ("pkg/b.py", "two")]));
    assert_eq!(fs.read_to_string_lossy("a.py").unwrap(), "one");
    assert_eq!(fs.read_to_string_lossy("pkg/b.py").unwrap(), "two");
    assert!(fs.read_to_string_lossy("c.py").is_err());
}

#[test]
fn empty_nulled_filesystem_has_nothing() {
    let fs = FileSystem::create_null(vec![]);
    assert!(!fs.path_exists("."));
    assert!(!fs.path_exists("a.py"));
    assert!(fs.read_to_string_lossy("a.py").is_err());
    assert!(fs.walk_python_files(".", WalkFilters::Standard).is_empty());
}

#[test]
fn emit_reaches_every_live_tracker() {
    let mut listener = OutputListener::new();
    let first = listener.track();
    listener.emit("one");
    let second = listener.track();
    let gone = listener.track();
    listener.release(gone);
    listener.emit("two");
    assert_eq!(first.data(&listener), vec!["one", "two"]);
    assert_eq!(second.data(&listener), vec!["two"]);
}

#[test]
fn trimming_removes_surrounding_whitespace_only() {
    assert_eq!(trimmed("\t a b \n"), "a b");
    assert_eq!(trimmed("   "), "");
    assert_eq!(trimmed("x"), "x");
}
