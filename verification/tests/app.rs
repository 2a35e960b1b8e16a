use pyproject_udeps::app::{App, AppError, NullConfig, Options};
use pyproject_udeps::ignorefile;
use pyproject_udeps::imports::{imports_of, Import, ImportStatement};
use pyproject_udeps::infra::fs::FileSystem;
use pyproject_udeps::infra::process::{CommandRunner, NullResponse};
use pyproject_udeps::infra::env::Env;

const MANIFEST: &str = "\
[tool.poetry.dependencies]
python = \"^3.11\"
requests = \"^2.31\"

[tool.poetry.group.dev.dependencies]
pytest = \"^8.0\"
";

/// The import statements of simple one-line Python imports, as a syntax
/// tree walk reports them.
fn statements(source: &str) -> Vec<ImportStatement> {
    let mut out = Vec::new();
    for line in source.lines() {
        let line = line.trim();
        if let Some(rest) = line.strip_prefix("import ") {
            let names = rest
                .split(',')
                .map(|part| part.trim().split(" as ").next().unwrap().trim().to_string())
                .collect();
            out.push(ImportStatement::Import { names });
        } else if let Some(rest) = line.strip_prefix("from ") {
            let (module, names) = rest.split_once(" import ").unwrap();
            let level = module.chars().take_while(|c| *c == '.').count() as u32;
            let module = module.trim_start_matches('.');
            out.push(ImportStatement::ImportFrom {
                module: (!module.is_empty()).then(|| module.to_string()),
                level,
                names: names.split(',').map(|n| n.trim().to_string()).collect(),
            });
        }
    }
    out
}

fn run(app: &mut App, options: &Options) -> Result<Vec<String>, AppError> {
    let analysis = app.prepare(options)?;
    let mut imports: Vec<Import> = Vec::new();
    for file in &analysis.files {
        imports.extend(imports_of(&statements(&file.contents)));
    }
    Ok(app.report(options, &analysis.manifest, &imports))
}

fn files(files: &[(&str, &str)]) -> Vec<(String, String)> {
    files
        .iter()
        .map(|(p, c)| ((*p).to_string(), (*c).to_string()))
        .collect()
}

fn null_app(list: &[(&str, &str)]) -> App {
    App::create_null(NullConfig {
        files: files(list),
        ..NullConfig::default()
    })
}

#[test]
fn reports_declared_minus_imported() {
    let mut app = null_app(&[("pyproject.toml", MANIFEST), ("main.py", "import os\n")]);
    assert_eq!(run(&mut app, &Options::default()).unwrap(), vec!["requests"]);
}

#[test]
fn imported_dependencies_are_not_reported() {
    let mut app = null_app(&[
        ("pyproject.toml", MANIFEST),
        ("main.py", "import requests\n"),
    ]);
    assert_eq!(run(&mut app, &Options::default()).unwrap(), Vec::<String>::new());
}

#[test]
fn dev_dependencies_reported_only_with_dev_option() {
    let list = [
        ("pyproject.toml", MANIFEST),
        ("main.py", "import requests\n"),
    ];
    let mut app = null_app(&list);
    assert_eq!(run(&mut app, &Options::default()).unwrap(), Vec::<String>::new());

    let mut app = null_app(&list);
    let options = Options {
        dev: true,
        ..Options::default()
    };
    assert_eq!(run(&mut app, &options).unwrap(), vec!["pytest"]);
}

#[test]
fn missing_pyproject_is_an_error() {
    let mut app = null_app(&[]);
    assert!(run(&mut app, &Options::default()).is_err());
}

#[test]
fn missing_pyproject_error_names_the_file() {
    let mut app = null_app(&[]);
    let err = run(&mut app, &Options::default()).unwrap_err();
    assert_eq!(
        err.message(),
        "Nulled FileSystem: no file configured at pyproject.toml"
    );
}

#[test]
fn malformed_pyproject_is_an_error() {
    let mut app = null_app(&[("pyproject.toml", "not toml [")]);
    assert!(matches!(
        run(&mut app, &Options::default()),
        Err(AppError::Manifest(_))
    ));
}

#[test]
fn virtualenv_files_mark_usage() {
    let mut app = App::create_null(NullConfig {
        files: vec![
            ("pyproject.toml".into(), MANIFEST.into()),
            ("main.py".into(), "import os\n".into()),
            (
                "/venvs/demo/lib/requests/__init__.py".into(),
                "import requests\n".into(),
            ),
        ],
        commands: vec![(
            "poetry env info -p".into(),
            NullResponse::Stdout("/venvs/demo".into()),
        )],
        ..NullConfig::default()
    });
    let options = Options {
        virtualenv: true,
        ..Options::default()
    };
    assert_eq!(run(&mut app, &options).unwrap(), Vec::<String>::new());
}

#[test]
fn venv_discovery_failure_is_an_error() {
    let mut app = App::create_null(NullConfig {
        files: vec![("pyproject.toml".into(), MANIFEST.into())],
        commands: vec![(
            "poetry env info -p".into(),
            NullResponse::Failure("no venv".into()),
        )],
        ..NullConfig::default()
    });
    let options = Options {
        virtualenv: true,
        ..Options::default()
    };
    assert!(run(&mut app, &options).is_err());
}

#[test]
fn poetry_is_not_invoked_without_the_virtualenv_option() {
    let fs = FileSystem::create_null(files(&[
        ("pyproject.toml", MANIFEST),
        ("main.py", "import requests\n"),
    ]));
    let mut runner = CommandRunner::create_null(vec![]);
    let runs = runner.track_runs();
    let mut app = App {
        fs,
        runner,
        env: Env::create_null(vec![]),
    };
    run(&mut app, &Options::default()).unwrap();
    assert_eq!(runs.data(app.runner.runs()), vec![]);
}

#[test]
fn poetry_is_invoked_with_the_virtualenv_option() {
    let fs = FileSystem::create_null(files(&[
        ("pyproject.toml", MANIFEST),
        ("main.py", "import requests\n"),
    ]));
    let mut runner = CommandRunner::create_null(vec![(
        "poetry env info -p".into(),
        NullResponse::Stdout("/venvs/demo".into()),
    )]);
    let runs = runner.track_runs();
    let mut app = App {
        fs,
        runner,
        env: Env::create_null(vec![]),
    };
    let options = Options {
        virtualenv: true,
        ..Options::default()
    };
    run(&mut app, &options).unwrap();
    let commands: Vec<String> = runs
        .data(app.runner.runs())
        .into_iter()
        .map(|e| e.command)
        .collect();
    assert_eq!(commands, vec!["poetry env info -p"]);
}

#[test]
fn ignorefile_filters_the_report() {
    let mut app = null_app(&[
        ("pyproject.toml", MANIFEST),
        ("main.py", "import os\n"),
        (ignorefile::IGNORE_FILE, "requests\n"),
    ]);
    assert_eq!(run(&mut app, &Options::default()).unwrap(), Vec::<String>::new());
}

#[test]
fn legacy_ignorefile_filters_the_report() {
    let mut app = null_app(&[
        ("pyproject.toml", MANIFEST),
        ("main.py", "import os\n"),
        (ignorefile::LEGACY_IGNORE_FILE, "# a comment\n\nrequests\n"),
    ]);
    assert_eq!(run(&mut app, &Options::default()).unwrap(), Vec::<String>::new());
}

#[test]
fn no_ignore_option_bypasses_the_ignorefile() {
    let mut app = null_app(&[
        ("pyproject.toml", MANIFEST),
        ("main.py", "import os\n"),
        (ignorefile::IGNORE_FILE, "requests\n"),
    ]);
    let options = Options {
        no_ignore: true,
        ..Options::default()
    };
    assert_eq!(run(&mut app, &options).unwrap(), vec!["requests"]);
}

#[test]
fn unused_deps_are_reported_sorted() {
    let manifest = "[tool.poetry.dependencies]\npython = \"^3.11\"\nzulu = \"^1.0\"\nalpha = \"^1.0\"\n";
    let mut app = null_app(&[("pyproject.toml", manifest), ("main.py", "import os\n")]);
    assert_eq!(
        run(&mut app, &Options::default()).unwrap(),
        vec!["alpha", "zulu"]
    );
}

#[test]
fn reports_exactly_the_unimported_dependencies() {
    // Identifier-shaped package names import under their own name.
    let declared = ["zeta", "alpha", "mid_name", "beta2"];
    let imported = ["alpha", "beta2"];
    let mut manifest = String::from("[tool.poetry.dependencies]\n");
    for package in &declared {
        manifest.push_str(&format!("{package} = \"^1.0\"\n"));
    }
    let mut source = String::new();
    for package in &imported {
        source.push_str(&format!("import {package}\n"));
    }
    let mut app = App::create_null(NullConfig {
        files: vec![
            ("pyproject.toml".into(), manifest),
            ("main.py".into(), source),
        ],
        ..NullConfig::default()
    });
    assert_eq!(
        run(&mut app, &Options::default()).unwrap(),
        vec!["mid_name", "zeta"]
    );
}

#[test]
fn dev_report_is_merged_in_ascending_order() {
    let manifest = "[tool.poetry.dependencies]\nzeta = \"1\"\n\n[tool.poetry.group.dev.dependencies]\nalpha = \"1\"\n";
    let mut app = null_app(&[("pyproject.toml", manifest), ("main.py", "import os\n")]);
    let options = Options {
        dev: true,
        ..Options::default()
    };
    assert_eq!(run(&mut app, &options).unwrap(), vec!["alpha", "zeta"]);
}

#[test]
fn package_declared_main_and_dev_is_reported_twice() {
    let manifest = "[tool.poetry.dependencies]\nzeta = \"1\"\nbeta = \"1\"\n\n[tool.poetry.group.dev.dependencies]\nbeta = \"1\"\nalpha = \"1\"\n";
    let mut app = null_app(&[("pyproject.toml", manifest), ("main.py", "import os\n")]);
    let options = Options {
        dev: true,
        ..Options::default()
    };
    assert_eq!(run(&mut app, &options).unwrap(), vec!["alpha", "beta", "beta", "zeta"]);
}

#[test]
fn known_name_alias_marks_dependency_used() {
    let manifest = "[tool.poetry.dependencies]\npython = \"^3.11\"\nscikit-learn = \"^1.4\"\n";
    let mut app = null_app(&[("pyproject.toml", manifest), ("main.py", "import sklearn\n")]);
    assert_eq!(run(&mut app, &Options::default()).unwrap(), Vec::<String>::new());
}

#[test]
fn dash_to_underscore_alias_marks_dependency_used() {
    let manifest = "[tool.poetry.dependencies]\npython = \"^3.11\"\npython-dateutil = \"^2.9\"\n";
    let mut app = null_app(&[
        ("pyproject.toml", manifest),
        ("main.py", "import python_dateutil\n"),
    ]);
    assert_eq!(run(&mut app, &Options::default()).unwrap(), Vec::<String>::new());
}

#[test]
fn aliased_dev_dependency_is_not_reported_when_used() {
    let manifest = "[tool.poetry.dependencies]\npython = \"^3.11\"\n\n[tool.poetry.group.dev.dependencies]\nscikit-learn = \"^1.4\"\n";
    let mut app = null_app(&[("pyproject.toml", manifest), ("main.py", "import sklearn\n")]);
    let options = Options {
        dev: true,
        ..Options::default()
    };
    assert_eq!(run(&mut app, &options).unwrap(), Vec::<String>::new());
}

#[test]
fn bare_dbt_adapters_import_does_not_crash() {
    let mut app = null_app(&[
        ("pyproject.toml", MANIFEST),
        ("main.py", "import dbt.adapters\n"),
    ]);
    assert_eq!(run(&mut app, &Options::default()).unwrap(), vec!["requests"]);
}

#[test]
fn dbt_adapter_import_marks_adapter_package_used() {
    let manifest = "[tool.poetry.dependencies]\npython = \"^3.11\"\ndbt-postgres = \"^1.9\"\n";
    let mut app = null_app(&[
        ("pyproject.toml", manifest),
        ("main.py", "import dbt.adapters.postgres\n"),
    ]);
    assert_eq!(run(&mut app, &Options::default()).unwrap(), Vec::<String>::new());
}

#[test]
fn pep621_project_dependencies_are_reported() {
    let manifest = "[project]\nname = \"demo\"\nversion = \"0.1.0\"\ndependencies = [\"requests>=2.31\"]\n";
    let mut app = null_app(&[("pyproject.toml", manifest), ("main.py", "import os\n")]);
    assert_eq!(run(&mut app, &Options::default()).unwrap(), vec!["requests"]);
}
