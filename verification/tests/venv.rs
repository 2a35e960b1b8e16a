use pyproject_udeps::infra::env::Env;
use pyproject_udeps::infra::fs::FileSystem;
use pyproject_udeps::infra::process::{CommandRunner, Execution, NullResponse};
use pyproject_udeps::pyproject::Manifest;
use pyproject_udeps::venv::{detect_flavor, env_variable_name, find_venv, Flavor};

const POETRY_MANIFEST: &str = "[tool.poetry.dependencies]\nrequests = \"^2.31\"\n";
const UV_MANIFEST: &str =
    "[project]\ndependencies = [\"requests\"]\n\n[tool.uv]\ndev-dependencies = []\n";
const PEP621_MANIFEST: &str = "[project]\ndependencies = [\"requests\"]\n";

fn manifest(source: &str) -> Manifest {
    Manifest::parse(source).unwrap()
}

fn fs(list: &[(&str, &str)]) -> FileSystem {
    FileSystem::create_null(
        list.iter()
            .map(|(p, c)| ((*p).to_string(), (*c).to_string()))
            .collect(),
    )
}

fn no_commands() -> CommandRunner {
    CommandRunner::create_null(vec![])
}

fn no_env() -> Env {
    Env::create_null(vec![])
}

fn env(list: &[(&str, &str)]) -> Env {
    Env::create_null(
        list.iter()
            .map(|(k, v)| ((*k).to_string(), (*v).to_string()))
            .collect(),
    )
}

#[test]
fn poetry_project_asks_poetry() {
    let fs = fs(&[("poetry.lock", "")]);
    let mut runner = CommandRunner::create_null(vec![(
        "poetry env info -p".to_string(),
        NullResponse::Stdout("/venvs/demo-py3.12".into()),
    )]);
    let venv = find_venv(&fs, &mut runner, &no_env(), &manifest(POETRY_MANIFEST)).unwrap();
    assert_eq!(venv, "/venvs/demo-py3.12");
}

#[test]
fn poetry_failure_falls_back_to_local_venv() {
    let fs = fs(&[("poetry.lock", ""), (".venv/lib/site.py", "")]);
    let venv =
        find_venv(&fs, &mut no_commands(), &no_env(), &manifest(POETRY_MANIFEST)).unwrap();
    assert_eq!(venv, ".venv");
}

#[test]
fn poetry_failure_without_local_venv_is_an_error() {
    let fs = fs(&[("poetry.lock", "")]);
    let err =
        find_venv(&fs, &mut no_commands(), &no_env(), &manifest(POETRY_MANIFEST)).unwrap_err();
    assert!(err.message().contains("poetry install"), "{err:?}");
}

#[test]
fn uv_project_never_invokes_a_subprocess() {
    let fs = fs(&[("uv.lock", ""), (".venv/lib/site.py", "")]);
    let mut runner = no_commands();
    let runs = runner.track_runs();
    let venv = find_venv(&fs, &mut runner, &no_env(), &manifest(UV_MANIFEST)).unwrap();
    assert_eq!(venv, ".venv");
    assert_eq!(runs.data(runner.runs()), vec![]);
}

#[test]
fn uv_project_environment_variable_takes_precedence() {
    let fs = fs(&[
        ("uv.lock", ""),
        (".venv/lib/site.py", ""),
        ("/custom/env/lib/site.py", ""),
    ]);
    let env = env(&[("UV_PROJECT_ENVIRONMENT", "/custom/env")]);
    let venv = find_venv(&fs, &mut no_commands(), &env, &manifest(UV_MANIFEST)).unwrap();
    assert_eq!(venv, "/custom/env");
}

#[test]
fn nonexistent_uv_project_environment_falls_back_to_local_venv() {
    let fs = fs(&[("uv.lock", ""), (".venv/lib/site.py", "")]);
    let env = env(&[("UV_PROJECT_ENVIRONMENT", "/ghost")]);
    let venv = find_venv(&fs, &mut no_commands(), &env, &manifest(UV_MANIFEST)).unwrap();
    assert_eq!(venv, ".venv");
}

#[test]
fn uv_project_without_venv_suggests_uv_sync() {
    let fs = fs(&[("uv.lock", "")]);
    let err = find_venv(&fs, &mut no_commands(), &no_env(), &manifest(UV_MANIFEST)).unwrap_err();
    assert!(err.message().contains("uv sync"), "{err:?}");
}

#[test]
fn uv_lock_beats_a_poetry_tool_table() {
    // A lockfile proves which tool manages the environment.
    let fs = fs(&[("uv.lock", ""), (".venv/lib/site.py", "")]);
    let mut runner = no_commands();
    let runs = runner.track_runs();
    let venv = find_venv(&fs, &mut runner, &no_env(), &manifest(POETRY_MANIFEST)).unwrap();
    assert_eq!(venv, ".venv");
    assert_eq!(runs.data(runner.runs()), vec![]);
}

#[test]
fn tool_table_decides_without_lockfiles() {
    let fs = fs(&[(".venv/lib/site.py", "")]);
    let venv = find_venv(&fs, &mut no_commands(), &no_env(), &manifest(UV_MANIFEST)).unwrap();
    assert_eq!(venv, ".venv");
}

#[test]
fn pep621_project_uses_the_active_virtualenv() {
    let fs = fs(&[("/active/venv/lib/site.py", "")]);
    let env = env(&[("VIRTUAL_ENV", "/active/venv")]);
    let venv = find_venv(&fs, &mut no_commands(), &env, &manifest(PEP621_MANIFEST)).unwrap();
    assert_eq!(venv, "/active/venv");
}

#[test]
fn pep621_project_falls_back_to_local_venv_then_errors() {
    let fs1 = fs(&[(".venv/lib/site.py", "")]);
    let venv = find_venv(&fs1, &mut no_commands(), &no_env(), &manifest(PEP621_MANIFEST)).unwrap();
    assert_eq!(venv, ".venv");

    let fs2 = fs(&[]);
    let err = find_venv(&fs2, &mut no_commands(), &no_env(), &manifest(PEP621_MANIFEST)).unwrap_err();
    assert!(err.message().contains("create .venv"), "{err:?}");
}

#[test]
fn flavor_detection() {
    let poetry = manifest(POETRY_MANIFEST);
    let uv = manifest(UV_MANIFEST);
    let pep621 = manifest(PEP621_MANIFEST);
    assert_eq!(detect_flavor(true, false, &poetry), Flavor::Uv);
    assert_eq!(detect_flavor(false, true, &uv), Flavor::Poetry);
    assert_eq!(detect_flavor(true, true, &uv), Flavor::Uv);
    assert_eq!(detect_flavor(false, false, &poetry), Flavor::Poetry);
    assert_eq!(detect_flavor(false, false, &pep621), Flavor::Pep621);
}

#[test]
fn poetry_project_runs_exactly_one_command() {
    let fs = fs(&[("poetry.lock", "")]);
    let mut runner = CommandRunner::create_null(vec![(
        "poetry env info -p".to_string(),
        NullResponse::Stdout("/venvs/demo\n".into()),
    )]);
    let runs = runner.track_runs();
    let venv = find_venv(&fs, &mut runner, &no_env(), &manifest(POETRY_MANIFEST)).unwrap();
    assert_eq!(venv, "/venvs/demo");
    assert_eq!(
        runs.data(runner.runs()),
        vec![Execution {
            command: "poetry env info -p".into()
        }]
    );
}

#[test]
fn environment_variable_names_by_flavor() {
    assert_eq!(env_variable_name(Flavor::Uv), "UV_PROJECT_ENVIRONMENT");
    assert_eq!(env_variable_name(Flavor::Pep621), "VIRTUAL_ENV");
}
