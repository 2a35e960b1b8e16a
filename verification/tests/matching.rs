use pyproject_udeps::imports::Import;
use pyproject_udeps::matching::DependencyIndex;

fn index(names: &[&str]) -> DependencyIndex {
    DependencyIndex::new(&names.iter().map(|n| n.to_string()).collect())
}

fn import(module: &str) -> Import {
    Import {
        module: module.to_string(),
        item: None,
    }
}

fn from_import(module: &str, item: &str) -> Import {
    Import {
        module: module.to_string(),
        item: Some(item.to_string()),
    }
}

#[test]
fn index_sorts_and_deduplicates() {
    let idx = index(&["zulu", "alpha", "zulu"]);
    assert_eq!(idx.unused(), vec!["alpha", "zulu"]);
}

#[test]
fn own_name_and_submodules_mark_used() {
    let mut idx = index(&["requests", "numpy"]);
    assert_eq!(idx.mark_used(&import("requests.adapters")), vec!["requests"]);
    assert_eq!(idx.unused(), vec!["numpy"]);
}

#[test]
fn prefix_without_dot_is_not_a_match() {
    let mut idx = index(&["requests"]);
    assert_eq!(idx.mark_used(&import("requests_toolbelt")), Vec::<String>::new());
    assert_eq!(idx.unused(), vec!["requests"]);
}

#[test]
fn dash_spellings_mark_used() {
    let mut idx = index(&["python-dateutil", "ruamel-yaml"]);
    idx.mark_used(&import("python_dateutil"));
    idx.mark_used(&import("ruamel.yaml"));
    assert_eq!(idx.unused(), Vec::<String>::new());
}

#[test]
fn listed_aliases_and_their_spellings_mark_used() {
    let mut idx = index(&["scikit-learn", "google-cloud-pubsub", "databricks-sql-connector"]);
    idx.mark_used(&import("sklearn.linear_model"));
    idx.mark_used(&from_import("google.cloud", "pubsub_v1"));
    assert_eq!(idx.unused(), vec!["databricks-sql-connector"]);
    idx.mark_used(&from_import("databricks", "sql"));
    assert_eq!(idx.unused(), Vec::<String>::new());
}

#[test]
fn dbt_adapter_modules_mark_used() {
    let mut idx = index(&["dbt-postgres", "dbt-core"]);
    assert_eq!(idx.mark_used(&import("dbt.adapters")), Vec::<String>::new());
    assert_eq!(
        idx.mark_used(&import("dbt.adapters.postgres")),
        vec!["dbt-postgres"]
    );
    assert_eq!(idx.unused(), vec!["dbt-core"]);
}

#[test]
fn case_matters() {
    let mut idx = index(&["Django"]);
    idx.mark_used(&import("django"));
    assert_eq!(idx.unused(), vec!["Django"]);
}
