use std::collections::BTreeSet;

use pyproject_udeps::ignorefile::{choose_ignorefile, ignored_packages, parse, IGNORE_FILE, LEGACY_IGNORE_FILE};
use pyproject_udeps::infra::fs::FileSystem;

fn set(names: &[&str]) -> BTreeSet<String> {
    names.iter().map(|n| n.to_string()).collect()
}

fn as_set(names: Vec<String>) -> BTreeSet<String> {
    names.into_iter().collect()
}

#[test]
fn parses_names_skipping_comments_and_blanks() {
    let contents = "# tools we run via CLI only\n\npytest\n  # indented comment\nruff\n";
    assert_eq!(as_set(parse(contents)), set(&["pytest", "ruff"]));
}

#[test]
fn parse_strips_carriage_returns() {
    assert_eq!(parse("pytest\r\nruff\r\n"), vec!["pytest", "ruff"]);
}

#[test]
fn parse_lists_names_in_ascending_order_once() {
    assert_eq!(parse("zulu\nalpha\nzulu"), vec!["alpha", "zulu"]);
}

#[test]
fn missing_ignorefile_is_an_empty_set() {
    let fs = FileSystem::create_null(vec![]);
    assert_eq!(as_set(ignored_packages(&fs)), BTreeSet::new());
}

#[test]
fn reads_the_ignorefile_from_the_project_root() {
    let fs = FileSystem::create_null(vec![(IGNORE_FILE.to_string(), "pytest\n".to_string())]);
    assert_eq!(as_set(ignored_packages(&fs)), set(&["pytest"]));
}

#[test]
fn legacy_ignorefile_is_the_fallback() {
    let fs = FileSystem::create_null(vec![(
        LEGACY_IGNORE_FILE.to_string(),
        "ruff\n".to_string(),
    )]);
    assert_eq!(as_set(ignored_packages(&fs)), set(&["ruff"]));
    let fs = FileSystem::create_null(vec![
        (LEGACY_IGNORE_FILE.to_string(), "ruff\n".to_string()),
        (IGNORE_FILE.to_string(), "pytest\n".to_string()),
    ]);
    assert_eq!(as_set(ignored_packages(&fs)), set(&["pytest"]));
}

#[test]
fn parse_returns_exactly_the_listed_names() {
    let names = ["alpha", "beta", "gamma_2", "alpha"];
    let mut contents = String::new();
    for (i, name) in names.iter().enumerate() {
        if i % 2 == 0 {
            contents.push_str("# a comment\n");
        }
        if i % 3 == 0 {
            contents.push('\n');
        }
        contents.push_str(name);
        contents.push('\n');
    }
    let expected: BTreeSet<String> = names.iter().map(|n| n.to_string()).collect();
    assert_eq!(as_set(parse(&contents)), expected);
}

#[test]
fn lone_carriage_return_on_the_last_line_is_kept() {
    assert_eq!(parse("pytest\r\nruff\r"), vec!["pytest", "ruff\r"]);
}

#[test]
fn ignorefile_choice_prefers_the_current_name() {
    assert_eq!(
        choose_ignorefile(Some("a\n".to_string()), Some("b\n".to_string())),
        vec!["a"]
    );
    assert_eq!(choose_ignorefile(None, Some("b\n".to_string())), vec!["b"]);
    assert_eq!(choose_ignorefile(None, None), Vec::<String>::new());
}
