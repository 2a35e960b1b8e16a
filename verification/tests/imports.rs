use pyproject_udeps::imports::{imports_of, Import, ImportStatement};

fn import(module: &str) -> Import {
    Import {
        module: module.to_string(),
        item: None,
    }
}

fn from_import(module: &str, item: &str) -> Import {
    Import {
        module: module.to_string(),
        item: Some(item.to_string()),
    }
}

fn plain(names: &[&str]) -> ImportStatement {
    ImportStatement::Import {
        names: names.iter().map(|n| n.to_string()).collect(),
    }
}

fn from(module: Option<&str>, level: u32, names: &[&str]) -> ImportStatement {
    ImportStatement::ImportFrom {
        module: module.map(str::to_string),
        level,
        names: names.iter().map(|n| n.to_string()).collect(),
    }
}

#[test]
fn plain_import_statement_imports_each_name() {
    assert_eq!(
        imports_of(&vec![plain(&["os", "sys"])]),
        vec![import("os"), import("sys")]
    );
}

#[test]
fn from_import_statement_imports_each_item() {
    assert_eq!(
        imports_of(&vec![from(Some("collections"), 0, &["OrderedDict", "defaultdict"])]),
        vec![
            from_import("collections", "OrderedDict"),
            from_import("collections", "defaultdict"),
        ]
    );
}

#[test]
fn star_import_has_no_item() {
    assert_eq!(
        imports_of(&vec![from(Some("numpy"), 0, &["*"])]),
        vec![import("numpy")]
    );
}

#[test]
fn relative_import_statements_are_excluded() {
    assert_eq!(imports_of(&vec![from(None, 1, &["sibling"])]), vec![]);
    assert_eq!(imports_of(&vec![from(Some("pkg"), 2, &["thing"])]), vec![]);
}

#[test]
fn dynamic_imports_of_literals_count() {
    let statements = vec![
        ImportStatement::Dynamic {
            module: "yaml".to_string(),
        },
        ImportStatement::Dynamic {
            module: ".relative".to_string(),
        },
        ImportStatement::Dynamic {
            module: String::new(),
        },
    ];
    assert_eq!(imports_of(&statements), vec![import("yaml")]);
}

#[test]
fn imports_keep_the_order_of_the_statements() {
    let statements = vec![
        plain(&["json"]),
        from(Some("google.cloud"), 0, &["bigquery"]),
        plain(&["tomli"]),
    ];
    assert_eq!(
        imports_of(&statements),
        vec![
            import("json"),
            from_import("google.cloud", "bigquery"),
            import("tomli"),
        ]
    );
}

#[test]
fn no_statements_no_imports() {
    assert_eq!(imports_of(&vec![]), vec![]);
}
