use pyproject_udeps::pyproject::{requirement_name, Manifest, ManifestError};

fn parse(source: &str) -> Manifest {
    Manifest::parse(source).unwrap()
}

#[test]
fn poetry_main_dependencies() {
    let manifest = parse(
        r#"
[tool.poetry.dependencies]
python = "^3.11"
requests = "^2.31"
numpy = "^1.26"
"#,
    );
    assert_eq!(manifest.main_dependencies(), vec!["numpy", "requests"]);
    assert_eq!(manifest.dev_dependencies(), Vec::<String>::new());
}

#[test]
fn pep621_project_dependencies() {
    let manifest = parse(
        r#"
[project]
name = "demo"
dependencies = [
    "requests[security]>=2.31 ; python_version >= '3.9'",
    "numpy",
    "python-dateutil~=2.9",
]
"#,
    );
    assert_eq!(
        manifest.main_dependencies(),
        vec!["numpy", "python-dateutil", "requests"]
    );
}

#[test]
fn poetry_and_project_dependencies_are_unioned() {
    let manifest = parse(
        r#"
[project]
dependencies = ["from-project"]

[tool.poetry.dependencies]
from-poetry = "^1.0"
"#,
    );
    assert_eq!(
        manifest.main_dependencies(),
        vec!["from-poetry", "from-project"]
    );
}

#[test]
fn optional_dependency_extras_count_as_main() {
    let manifest = parse(
        r#"
[project]
dependencies = ["requests"]

[project.optional-dependencies]
plot = ["matplotlib>=3.8"]
excel = ["openpyxl", "xlsxwriter"]
"#,
    );
    assert_eq!(
        manifest.main_dependencies(),
        vec!["matplotlib", "openpyxl", "requests", "xlsxwriter"]
    );
}

#[test]
fn all_poetry_groups_count_as_dev() {
    let manifest = parse(
        r#"
[tool.poetry.dependencies]
requests = "^2.31"

[tool.poetry.group.dev.dependencies]
pytest = "^8.0"

[tool.poetry.group.docs.dependencies]
mkdocs = "^1.6"
"#,
    );
    assert_eq!(manifest.dev_dependencies(), vec!["mkdocs", "pytest"]);
}

#[test]
fn pep735_dependency_groups_count_as_dev() {
    let manifest = parse(
        r#"
[project]
dependencies = ["requests"]

[dependency-groups]
test = ["pytest>=8", "coverage"]
lint = ["ruff"]
all = [{include-group = "test"}, {include-group = "lint"}]
"#,
    );
    assert_eq!(manifest.dev_dependencies(), vec!["coverage", "pytest", "ruff"]);
}

#[test]
fn cyclic_include_groups_parse_fine() {
    let manifest = parse(
        r#"
[project]
dependencies = []

[dependency-groups]
a = ["pytest", {include-group = "b"}]
b = [{include-group = "a"}, "ruff"]
"#,
    );
    assert_eq!(manifest.dev_dependencies(), vec!["pytest", "ruff"]);
}

#[test]
fn legacy_tool_uv_dev_dependencies_count_as_dev() {
    let manifest = parse(
        r#"
[project]
dependencies = ["requests"]

[tool.uv]
dev-dependencies = ["pytest>=8"]
"#,
    );
    assert_eq!(manifest.dev_dependencies(), vec!["pytest"]);
}

#[test]
fn dependency_groups_alone_are_a_valid_manifest() {
    let manifest = parse(
        r#"
[dependency-groups]
dev = ["pytest"]
"#,
    );
    assert_eq!(manifest.main_dependencies(), Vec::<String>::new());
    assert_eq!(manifest.dev_dependencies(), vec!["pytest"]);
}

#[test]
fn missing_dependency_declarations_is_an_error() {
    assert!(Manifest::parse("[tool.black]\nline-length = 100\n").is_err());
}

#[test]
fn missing_dependency_declarations_message() {
    let err = Manifest::parse("[tool.black]\nline-length = 100\n").unwrap_err();
    assert!(matches!(err, ManifestError::NoDeclarations));
    assert_eq!(
        err.message(),
        "no dependency declarations found in pyproject.toml"
    );
}

#[test]
fn malformed_toml_is_an_error() {
    assert!(Manifest::parse("not toml [").is_err());
}

#[test]
fn malformed_toml_is_a_syntax_error() {
    assert!(matches!(
        Manifest::parse("not toml ["),
        Err(ManifestError::Syntax(_))
    ));
}

#[test]
fn legacy_dev_dependencies_table() {
    let manifest = parse(
        r#"
[tool.poetry.dependencies]
requests = "^2.31"

[tool.poetry.dev-dependencies]
pytest = "^8.0"
"#,
    );
    assert_eq!(manifest.dev_dependencies(), vec!["pytest"]);
}

#[test]
fn dev_group_dependencies_table() {
    let manifest = parse(
        r#"
[tool.poetry.dependencies]
requests = "^2.31"

[tool.poetry.group.dev.dependencies]
pytest = "^8.0"
mypy = "^1.10"
"#,
    );
    assert_eq!(manifest.dev_dependencies(), vec!["mypy", "pytest"]);
}

#[test]
fn python_is_never_a_dependency() {
    let manifest = parse(
        r#"
[tool.poetry.dependencies]
python = "^3.11"
"#,
    );
    assert_eq!(manifest.main_dependencies(), Vec::<String>::new());
}

#[test]
fn python_is_never_a_dev_dependency() {
    let manifest = parse(
        r#"
[dependency-groups]
dev = ["python>=3.11", "pytest"]
"#,
    );
    assert_eq!(manifest.dev_dependencies(), vec!["pytest"]);
}

#[test]
fn hybrid_layout_unions_everything() {
    let manifest = parse(
        r#"
[project]
dependencies = ["alpha"]

[project.optional-dependencies]
extra = ["bravo"]

[tool.poetry.dependencies]
charlie = "^1.0"

[tool.poetry.group.dev.dependencies]
delta = "^1.0"

[dependency-groups]
test = ["echo"]

[tool.uv]
dev-dependencies = ["foxtrot"]
"#,
    );
    assert_eq!(
        manifest.main_dependencies(),
        vec!["alpha", "bravo", "charlie"]
    );
    assert_eq!(
        manifest.dev_dependencies(),
        vec!["delta", "echo", "foxtrot"]
    );
}

#[test]
fn tool_tables_are_hints() {
    let poetry = parse("[tool.poetry.dependencies]\nrequests = \"^2.31\"\n");
    assert!(poetry.poetry_hint());
    assert!(!poetry.uv_hint());
    let uv = parse("[project]\ndependencies = [\"requests\"]\n\n[tool.uv]\ndev-dependencies = []\n");
    assert!(!uv.poetry_hint());
    assert!(uv.uv_hint());
}

#[test]
fn group_without_dependencies_declares_nothing() {
    assert!(Manifest::parse("[tool.poetry.group.dev]\noptional = true\n").is_err());
}

#[test]
fn requirement_name_extraction() {
    assert_eq!(requirement_name("requests").as_deref(), Some("requests"));
    assert_eq!(requirement_name("requests>=2.31").as_deref(), Some("requests"));
    assert_eq!(
        requirement_name("requests[socks,security]").as_deref(),
        Some("requests")
    );
    assert_eq!(
        requirement_name("  requests == 2.31").as_deref(),
        Some("requests")
    );
    assert_eq!(
        requirement_name("python-dateutil~=2.9").as_deref(),
        Some("python-dateutil")
    );
    assert_eq!(requirement_name("ruamel.yaml").as_deref(), Some("ruamel.yaml"));
    assert_eq!(requirement_name(""), None);
    assert_eq!(requirement_name(">=2.0"), None);
}

#[test]
fn requirement_name_skips_unicode_whitespace() {
    assert_eq!(
        requirement_name("\u{3000}\tnumpy").as_deref(),
        Some("numpy")
    );
}

#[test]
fn declared_names_are_extracted_from_any_layout() {
    let source = r#"
[project]
dependencies = [
    "alpha>=1.0",
    "python>=1.0",
]

[project.optional-dependencies]
extra = [
    "bravo",
]

[tool.poetry.dependencies]
charlie = "^1.0"

[tool.poetry.group.lint.dependencies]
delta = "^1.0"

[dependency-groups]
test = [
    "echo",
    "alpha",
]
"#;
    let manifest = parse(source);
    assert_eq!(
        manifest.main_dependencies(),
        vec!["alpha", "bravo", "charlie"]
    );
    assert_eq!(
        manifest.dev_dependencies(),
        vec!["alpha", "delta", "echo"]
    );
}

#[test]
fn include_group_graphs_always_yield_the_union() {
    let source = r#"
[project]
dependencies = []

[dependency-groups]
group0 = ["pkg_a", {include-group = "group0"}, {include-group = "group5"}, ]
group1 = [{include-group = "group2"}, "pkg_b", ]
group2 = [{include-group = "group1"}, "python", "pkg_a", ]
"#;
    let manifest = parse(source);
    assert_eq!(manifest.dev_dependencies(), vec!["pkg_a", "pkg_b"]);
}
