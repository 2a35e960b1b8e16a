use pyproject_udeps::name_map::{known_name, known_names};

#[test]
fn known_names_are_sorted() {
    let table = known_names();
    let mut names = table.iter().map(|(name, _alias)| *name);

    let Some(mut previous_name) = names.next() else {
        return;
    };

    for name in names {
        assert!(
            name > previous_name,
            r#""{name}" should be sorted before "{previous_name}" in `KNOWN_NAMES`"#,
        );

        previous_name = name;
    }
}

#[test]
fn known_name_lookup() {
    assert_eq!(known_name("scikit-learn"), Some("sklearn"));
    assert_eq!(known_name("PyYAML"), Some("yaml"));
    assert_eq!(known_name("pyyaml"), Some("yaml"));
    assert_eq!(known_name("requests"), None);
    assert_eq!(known_names().len(), 43);
}
