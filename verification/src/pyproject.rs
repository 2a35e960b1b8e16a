//! Declared-dependency extraction from pyproject.toml.
//!
//! This module hides the zoo of places dependencies can be declared. Callers
//! see two flat name sets: main and dev.

use vstd::prelude::*;

use crate::names::NameSet;
use crate::text::{chars_of, skip_space, string_of, strictly_sorted, trim_start};
use crate::toml_doc::{
    array_at, get, lookup, lookup_array, lookup_table, parse_toml, path_view, table_at, toml_parse,
    value_get, TomlValue,
};

verus! {

// ---------------------------------------------------------------------------
// Requirement names
// ---------------------------------------------------------------------------

/// A character that may appear in a package name: `[A-Za-z0-9._-]`.
pub open spec fn is_name_char(c: char) -> bool {
    ||| ('a' <= c && c <= 'z')
    ||| ('A' <= c && c <= 'Z')
    ||| ('0' <= c && c <= '9')
    ||| c == '.'
    ||| c == '_'
    ||| c == '-'
}

/// Length of the longest leading run of name characters.
pub open spec fn name_len(s: Seq<char>) -> nat
    decreases s.len(),
{
    if s.len() > 0 && is_name_char(s[0]) {
        1 + name_len(s.drop_first())
    } else {
        0
    }
}

/// The package name of a PEP 508 requirement string: the longest leading
/// run of `[A-Za-z0-9._-]` after leading whitespace; everything after it
/// (extras, version specifiers, markers) is irrelevant here. Requirements
/// with no leading name yield `None`.
pub open spec fn spec_requirement_name(requirement: Seq<char>) -> Option<Seq<char>> {
    let t = trim_start(requirement);
    if name_len(t) == 0 {
        None
    } else {
        Some(t.take(name_len(t) as int))
    }
}

/// The package name an array item declares: string items only.
pub open spec fn item_requirement(item: TomlValue) -> Option<Seq<char>> {
    match item {
        TomlValue::Str(s) => spec_requirement_name(s@),
        _ => None,
    }
}

/// Package names from an array of PEP 508 requirement strings. Non-string
/// entries (e.g. PEP 735 include-group tables) and malformed requirements
/// contribute nothing.
pub open spec fn requirement_set(items: Seq<TomlValue>) -> Set<Seq<char>> {
    Set::new(
        |n: Seq<char>|
            exists|i: int| 0 <= i < items.len() && item_requirement(#[trigger] items[i]) == Some(n),
    )
}

/// The keys of a table.
pub open spec fn key_set(entries: Seq<(String, TomlValue)>) -> Set<Seq<char>> {
    Set::new(|k: Seq<char>| exists|i: int| 0 <= i < entries.len() && (#[trigger] entries[i]).0@ == k)
}

/// The requirement names of every array-valued entry of a table.
pub open spec fn arrays_requirement_set(entries: Seq<(String, TomlValue)>) -> Set<Seq<char>> {
    Set::new(
        |n: Seq<char>|
            exists|i: int|
                0 <= i < entries.len() && match (#[trigger] entries[i]).1 {
                    TomlValue::Array(items) => requirement_set(items@).contains(n),
                    _ => false,
                },
    )
}

/// The `dependencies` table of a poetry group, if the group has one.
pub open spec fn group_dependencies(group: TomlValue) -> Option<Seq<(String, TomlValue)>> {
    match value_get(group, "dependencies"@) {
        Some(TomlValue::Table(entries)) => Some(entries@),
        _ => None,
    }
}

/// The keys of the `dependencies` tables of every poetry group.
pub open spec fn groups_key_set(groups: Seq<(String, TomlValue)>) -> Set<Seq<char>> {
    Set::new(
        |n: Seq<char>|
            exists|i: int|
                0 <= i < groups.len() && match group_dependencies((#[trigger] groups[i]).1) {
                    Some(deps) => key_set(deps).contains(n),
                    None => false,
                },
    )
}

/// Whether some poetry group has a `dependencies` table.
pub open spec fn groups_declare(groups: Seq<(String, TomlValue)>) -> bool {
    exists|i: int| 0 <= i < groups.len() && group_dependencies((#[trigger] groups[i]).1) is Some
}

pub open spec fn keys_of(t: Option<Seq<(String, TomlValue)>>) -> Set<Seq<char>> {
    match t {
        Some(entries) => key_set(entries),
        None => Set::empty(),
    }
}

pub open spec fn requirements_of(a: Option<Seq<TomlValue>>) -> Set<Seq<char>> {
    match a {
        Some(items) => requirement_set(items),
        None => Set::empty(),
    }
}

pub open spec fn arrays_requirements_of(t: Option<Seq<(String, TomlValue)>>) -> Set<Seq<char>> {
    match t {
        Some(entries) => arrays_requirement_set(entries),
        None => Set::empty(),
    }
}

pub open spec fn groups_keys_of(t: Option<Seq<(String, TomlValue)>>) -> Set<Seq<char>> {
    match t {
        Some(groups) => groups_key_set(groups),
        None => Set::empty(),
    }
}

// ---------------------------------------------------------------------------
// Where dependencies are declared
// ---------------------------------------------------------------------------

/// `[tool.poetry.<key>]`
pub open spec fn poetry_path(key: Seq<char>) -> Seq<Seq<char>> {
    seq!["tool"@, "poetry"@, key]
}

/// `[project].<key>`
pub open spec fn project_path(key: Seq<char>) -> Seq<Seq<char>> {
    seq!["project"@, key]
}

pub open spec fn poetry_deps(doc: TomlValue) -> Option<Seq<(String, TomlValue)>> {
    lookup_table(doc, poetry_path("dependencies"@))
}

pub open spec fn project_deps(doc: TomlValue) -> Option<Seq<TomlValue>> {
    lookup_array(doc, project_path("dependencies"@))
}

pub open spec fn optional_deps(doc: TomlValue) -> Option<Seq<(String, TomlValue)>> {
    lookup_table(doc, project_path("optional-dependencies"@))
}

pub open spec fn poetry_dev_deps(doc: TomlValue) -> Option<Seq<(String, TomlValue)>> {
    lookup_table(doc, poetry_path("dev-dependencies"@))
}

pub open spec fn poetry_groups(doc: TomlValue) -> Option<Seq<(String, TomlValue)>> {
    lookup_table(doc, poetry_path("group"@))
}

pub open spec fn dependency_groups(doc: TomlValue) -> Option<Seq<(String, TomlValue)>> {
    lookup_table(doc, seq!["dependency-groups"@])
}

pub open spec fn uv_dev_deps(doc: TomlValue) -> Option<Seq<TomlValue>> {
    lookup_array(doc, seq!["tool"@, "uv"@, "dev-dependencies"@])
}

/// Whether the document declares dependencies anywhere at all.
pub open spec fn declares_dependencies(doc: TomlValue) -> bool {
    ||| poetry_deps(doc) is Some
    ||| project_deps(doc) is Some
    ||| optional_deps(doc) is Some
    ||| poetry_dev_deps(doc) is Some
    ||| (poetry_groups(doc) matches Some(groups) && groups_declare(groups))
    ||| dependency_groups(doc) is Some
    ||| uv_dev_deps(doc) is Some
}

/// Main dependencies: `[tool.poetry.dependencies]`, PEP 621
/// `[project].dependencies`, and every `[project.optional-dependencies]`
/// extra, without the `python` interpreter requirement.
pub open spec fn declared_main(doc: TomlValue) -> Set<Seq<char>> {
    keys_of(poetry_deps(doc)).union(requirements_of(project_deps(doc))).union(
        arrays_requirements_of(optional_deps(doc)),
    ).remove("python"@)
}

/// Dev dependencies: `[tool.poetry.dev-dependencies]`, every
/// `[tool.poetry.group.*.dependencies]`, every PEP 735 `[dependency-groups]`
/// group, and the legacy `[tool.uv]` dev-dependencies array, without the
/// `python` interpreter requirement.
pub open spec fn declared_dev(doc: TomlValue) -> Set<Seq<char>> {
    keys_of(poetry_dev_deps(doc)).union(groups_keys_of(poetry_groups(doc))).union(
        arrays_requirements_of(dependency_groups(doc)),
    ).union(requirements_of(uv_dev_deps(doc))).remove("python"@)
}

// ---------------------------------------------------------------------------
// The manifest
// ---------------------------------------------------------------------------

/// Why a pyproject.toml yields no manifest.
#[derive(Debug)]
pub enum ManifestError {
    /// The text is not TOML; the parser's message.
    Syntax(String),
    /// No table or array that declares dependencies is present.
    NoDeclarations,
}

impl ManifestError {
    /// The message shown to the user.
    pub fn message(&self) -> (r: String)
        ensures
            match self {
                ManifestError::Syntax(m) => r@ == m@,
                ManifestError::NoDeclarations => r@
                    == "no dependency declarations found in pyproject.toml"@,
            },
    {
        match self {
            ManifestError::Syntax(m) => m.clone(),
            ManifestError::NoDeclarations => String::from_str(
                "no dependency declarations found in pyproject.toml",
            ),
        }
    }
}

/// The declared dependencies of a project, by name.
#[derive(Debug)]
pub struct Manifest {
    main: NameSet,
    dev: NameSet,
    poetry: bool,
    uv: bool,
}

/// What `Manifest::from_document` makes of a parsed document.
pub open spec fn manifest_of(doc: TomlValue, r: Result<Manifest, ManifestError>) -> bool {
    match r {
        Ok(m) => {
            &&& declares_dependencies(doc)
            &&& m.wf()
            &&& m.main_names().to_set() == declared_main(doc)
            &&& m.dev_names().to_set() == declared_dev(doc)
            &&& m.poetry_table() == (lookup_table(doc, seq!["tool"@, "poetry"@]) is Some)
            &&& m.uv_table() == (lookup_table(doc, seq!["tool"@, "uv"@]) is Some)
        },
        Err(e) => !declares_dependencies(doc) && e is NoDeclarations,
    }
}

impl Manifest {
    /// Main dependency names, ascending.
    pub closed spec fn main_names(&self) -> Seq<Seq<char>> {
        self.main.seq()
    }

    /// Dev dependency names, ascending.
    pub closed spec fn dev_names(&self) -> Seq<Seq<char>> {
        self.dev.seq()
    }

    /// Whether the document has a `[tool.poetry]` table.
    pub closed spec fn poetry_table(&self) -> bool {
        self.poetry
    }

    /// Whether the document has a `[tool.uv]` table.
    pub closed spec fn uv_table(&self) -> bool {
        self.uv
    }

    /// Both name lists are strictly ascending.
    pub open spec fn wf(&self) -> bool {
        strictly_sorted(self.main_names()) && strictly_sorted(self.dev_names())
    }

    /// Parse pyproject.toml source.
    ///
    /// Dependencies are the union of every place a tool can declare them, so
    /// a wrong guess about which tool manages the project can never drop a
    /// declaration (see [`declared_main`] and [`declared_dev`]). A manifest
    /// declaring dependencies nowhere at all is an error, since that usually
    /// means the tool was run outside a project root. The `python`
    /// interpreter requirement is never a dependency.
    pub fn parse(source: &str) -> (r: Result<Manifest, ManifestError>)
        ensures
            match toml_parse(source@) {
                Ok(doc) => manifest_of(doc, r),
                Err(message) => r matches Err(ManifestError::Syntax(m)) && m@ == message,
            },
    {
        match parse_toml(source) {
            Ok(doc) => Manifest::from_document(&doc),
            Err(message) => Err(ManifestError::Syntax(message)),
        }
    }

    /// The manifest a parsed pyproject.toml document declares.
    pub fn from_document(doc: &TomlValue) -> (r: Result<Manifest, ManifestError>)
        ensures
            manifest_of(*doc, r),
    {
        let ghost d = *doc;
        proof {
            assert(path_view(seq!["tool", "poetry", "dependencies"]) =~= poetry_path("dependencies"@));
            assert(path_view(seq!["project", "dependencies"]) =~= project_path("dependencies"@));
            assert(path_view(seq!["project", "optional-dependencies"]) =~= project_path(
                "optional-dependencies"@,
            ));
            assert(path_view(seq!["tool", "poetry", "dev-dependencies"]) =~= poetry_path(
                "dev-dependencies"@,
            ));
            assert(path_view(seq!["tool", "poetry", "group"]) =~= poetry_path("group"@));
            assert(path_view(seq!["tool", "uv", "dev-dependencies"]) =~= seq![
                "tool"@,
                "uv"@,
                "dev-dependencies"@,
            ]);
            assert(path_view(seq!["tool", "poetry"]) =~= seq!["tool"@, "poetry"@]);
            assert(path_view(seq!["tool", "uv"]) =~= seq!["tool"@, "uv"@]);
        }

        let mut main = NameSet::new();
        let mut declares = false;
        if let Some(table) = table_at(doc, &["tool", "poetry", "dependencies"]) {
            insert_keys(&mut main, table);
            declares = true;
        }
        if let Some(array) = array_at(doc, &["project", "dependencies"]) {
            insert_requirements(&mut main, array);
            declares = true;
        }
        if let Some(extras) = table_at(doc, &["project", "optional-dependencies"]) {
            insert_array_requirements(&mut main, extras);
            declares = true;
        }
        assert(main.seq().to_set() =~= keys_of(poetry_deps(d)).union(
            requirements_of(project_deps(d)),
        ).union(arrays_requirements_of(optional_deps(d))));

        let ghost main_declares = declares;
        assert(main_declares == (poetry_deps(d) is Some || project_deps(d) is Some
            || optional_deps(d) is Some));
        let mut dev = NameSet::new();
        if let Some(table) = table_at(doc, &["tool", "poetry", "dev-dependencies"]) {
            insert_keys(&mut dev, table);
            declares = true;
        }
        assert(dev.seq().to_set() =~= keys_of(poetry_dev_deps(d)));
        let ghost s1 = dev.seq().to_set();
        if let Some(groups) = table_at(doc, &["tool", "poetry", "group"]) {
            if insert_group_keys(&mut dev, groups) {
                declares = true;
            }
        }
        assert(dev.seq().to_set() =~= s1.union(groups_keys_of(poetry_groups(d))));
        let ghost s2 = dev.seq().to_set();
        assert(declares == (main_declares || poetry_dev_deps(d) is Some || (poetry_groups(
            d,
        ) matches Some(groups) && groups_declare(groups))));
        let dg = match get(doc, "dependency-groups") {
            Some(TomlValue::Table(entries)) => Some(entries),
            _ => None,
        };
        proof {
            let path = seq!["dependency-groups"@];
            assert(path.drop_first() =~= Seq::<Seq<char>>::empty());
            assert(lookup(d, path) == match value_get(d, "dependency-groups"@) {
                Some(child) => lookup(child, path.drop_first()),
                None => None,
            });
        }
        assert(match dg {
            Some(e) => dependency_groups(d) == Some(e@),
            None => dependency_groups(d) is None,
        });
        if let Some(groups) = dg {
            // Every group is unioned, so `{include-group = "..."}` entries
            // need no resolution: whatever they include is already counted.
            insert_array_requirements(&mut dev, groups);
            declares = true;
        }
        assert(dev.seq().to_set() =~= s2.union(arrays_requirements_of(dependency_groups(d))));
        let ghost s3 = dev.seq().to_set();
        if let Some(array) = array_at(doc, &["tool", "uv", "dev-dependencies"]) {
            insert_requirements(&mut dev, array);
            declares = true;
        }
        assert(dev.seq().to_set() =~= s3.union(requirements_of(uv_dev_deps(d))));
        assert(declares == declares_dependencies(d));

        if !declares {
            return Err(ManifestError::NoDeclarations);
        }
        main.remove("python");
        dev.remove("python");
        let poetry = table_at(doc, &["tool", "poetry"]).is_some();
        let uv = table_at(doc, &["tool", "uv"]).is_some();
        Ok(Manifest { main, dev, poetry, uv })
    }

    /// Main dependency names, in ascending order.
    pub fn main_dependencies(&self) -> (r: Vec<String>)
        ensures
            crate::text::views(r@) == self.main_names(),
    {
        self.main.to_vec()
    }

    /// Dev dependency names, in ascending order.
    pub fn dev_dependencies(&self) -> (r: Vec<String>)
        ensures
            crate::text::views(r@) == self.dev_names(),
    {
        self.dev.to_vec()
    }

    /// Whether the document has a `[tool.poetry]` table: a sign that poetry
    /// manages the project.
    pub fn poetry_hint(&self) -> (r: bool)
        ensures
            r == self.poetry_table(),
    {
        self.poetry
    }

    /// Whether the document has a `[tool.uv]` table: a sign that uv manages
    /// the project.
    pub fn uv_hint(&self) -> (r: bool)
        ensures
            r == self.uv_table(),
    {
        self.uv
    }
}

/// Adds the keys of a table to `set`.
fn insert_keys(set: &mut NameSet, entries: &Vec<(String, TomlValue)>)
    requires
        old(set).wf(),
    ensures
        final(set).wf(),
        final(set).seq().to_set() == old(set).seq().to_set().union(key_set(entries@)),
{
    let ghost start = set.seq().to_set();
    let mut i: usize = 0;
    while i < entries.len()
        invariant
            i <= entries@.len(),
            set.wf(),
            set.seq().to_set() == start.union(key_set(entries@.take(i as int))),
        decreases entries@.len() - i,
    {
        set.insert(entries[i].0.clone());
        proof {
            assert(key_set(entries@.take(i + 1)) =~= key_set(entries@.take(i as int)).insert(
                entries@[i as int].0@,
            )) by {
                let t = entries@.take(i + 1);
                assert forall|k: Seq<char>| key_set(t).contains(k) implies key_set(
                    entries@.take(i as int),
                ).insert(entries@[i as int].0@).contains(k) by {
                    let j = choose|j: int| 0 <= j < t.len() && (#[trigger] t[j]).0@ == k;
                    if j < i {
                        assert(entries@.take(i as int)[j] == t[j]);
                    }
                }
                assert forall|k: Seq<char>| key_set(entries@.take(i as int)).insert(
                    entries@[i as int].0@,
                ).contains(k) implies key_set(t).contains(k) by {
                    if k == entries@[i as int].0@ {
                        assert(t[i as int] == entries@[i as int]);
                    } else {
                        let s0 = entries@.take(i as int);
                        let j = choose|j: int| 0 <= j < s0.len() && (#[trigger] s0[j]).0@ == k;
                        assert(t[j] == s0[j]);
                    }
                }
            }
        }
        i = i + 1;
    }
    assert(entries@.take(i as int) =~= entries@);
}

/// Adds the package names of an array of requirement strings to `set`.
fn insert_requirements(set: &mut NameSet, items: &Vec<TomlValue>)
    requires
        old(set).wf(),
    ensures
        final(set).wf(),
        final(set).seq().to_set() == old(set).seq().to_set().union(requirement_set(items@)),
{
    let ghost start = set.seq().to_set();
    let mut i: usize = 0;
    while i < items.len()
        invariant
            i <= items@.len(),
            set.wf(),
            set.seq().to_set() == start.union(requirement_set(items@.take(i as int))),
        decreases items@.len() - i,
    {
        let ghost before = set.seq().to_set();
        let ghost item = items@[i as int];
        if let TomlValue::Str(s) = &items[i] {
            if let Some(name) = requirement_name(s.as_str()) {
                set.insert(name);
            }
        }
        proof {
            let t = items@.take(i + 1);
            let s0 = items@.take(i as int);
            let added = match item_requirement(item) {
                Some(n) => requirement_set(s0).insert(n),
                None => requirement_set(s0),
            };
            assert(requirement_set(t) =~= added) by {
                assert forall|n: Seq<char>| requirement_set(t).contains(n) implies added.contains(
                    n,
                ) by {
                    let j = choose|j: int|
                        0 <= j < t.len() && item_requirement(#[trigger] t[j]) == Some(n);
                    if j < i {
                        assert(s0[j] == t[j]);
                    }
                }
                assert forall|n: Seq<char>| added.contains(n) implies requirement_set(t).contains(
                    n,
                ) by {
                    if item_requirement(item) == Some(n) {
                        assert(t[i as int] == item);
                    } else {
                        let j = choose|j: int|
                            0 <= j < s0.len() && item_requirement(#[trigger] s0[j]) == Some(n);
                        assert(t[j] == s0[j]);
                    }
                }
            }
        }
        i = i + 1;
    }
    assert(items@.take(i as int) =~= items@);
}

/// Adds the package names of every array-valued entry of a table to `set`.
fn insert_array_requirements(set: &mut NameSet, entries: &Vec<(String, TomlValue)>)
    requires
        old(set).wf(),
    ensures
        final(set).wf(),
        final(set).seq().to_set() == old(set).seq().to_set().union(
            arrays_requirement_set(entries@),
        ),
{
    let ghost start = set.seq().to_set();
    let mut i: usize = 0;
    while i < entries.len()
        invariant
            i <= entries@.len(),
            set.wf(),
            set.seq().to_set() == start.union(arrays_requirement_set(entries@.take(i as int))),
        decreases entries@.len() - i,
    {
        let ghost entry = entries@[i as int];
        if let TomlValue::Array(items) = &entries[i].1 {
            insert_requirements(set, items);
        }
        proof {
            let t = entries@.take(i + 1);
            let s0 = entries@.take(i as int);
            let added = match entry.1 {
                TomlValue::Array(items) => arrays_requirement_set(s0).union(
                    requirement_set(items@),
                ),
                _ => arrays_requirement_set(s0),
            };
            assert(arrays_requirement_set(t) =~= added) by {
                assert forall|n: Seq<char>| arrays_requirement_set(t).contains(n) implies added.contains(
                    n,
                ) by {
                    let j = choose|j: int|
                        0 <= j < t.len() && match (#[trigger] t[j]).1 {
                            TomlValue::Array(items) => requirement_set(items@).contains(n),
                            _ => false,
                        };
                    if j < i {
                        assert(s0[j] == t[j]);
                    }
                }
                assert forall|n: Seq<char>| added.contains(n) implies arrays_requirement_set(
                    t,
                ).contains(n) by {
                    if arrays_requirement_set(s0).contains(n) {
                        let j = choose|j: int|
                            0 <= j < s0.len() && match (#[trigger] s0[j]).1 {
                                TomlValue::Array(items) => requirement_set(items@).contains(n),
                                _ => false,
                            };
                        assert(t[j] == s0[j]);
                    } else {
                        assert(t[i as int] == entry);
                    }
                }
            }
        }
        i = i + 1;
    }
    assert(entries@.take(i as int) =~= entries@);
}

/// Adds the keys of every poetry group's `dependencies` table to `set`, and
/// tells whether any group has such a table.
fn insert_group_keys(set: &mut NameSet, groups: &Vec<(String, TomlValue)>) -> (found: bool)
    requires
        old(set).wf(),
    ensures
        final(set).wf(),
        final(set).seq().to_set() == old(set).seq().to_set().union(groups_key_set(groups@)),
        found == groups_declare(groups@),
{
    let ghost start = set.seq().to_set();
    let mut found = false;
    let mut i: usize = 0;
    while i < groups.len()
        invariant
            i <= groups@.len(),
            set.wf(),
            set.seq().to_set() == start.union(groups_key_set(groups@.take(i as int))),
            found == groups_declare(groups@.take(i as int)),
        decreases groups@.len() - i,
    {
        let ghost entry = groups@[i as int];
        if let Some(TomlValue::Table(deps)) = get(&groups[i].1, "dependencies") {
            insert_keys(set, deps);
            found = true;
        }
        proof {
            let t = groups@.take(i + 1);
            let s0 = groups@.take(i as int);
            let added = match group_dependencies(entry.1) {
                Some(deps) => groups_key_set(s0).union(key_set(deps)),
                None => groups_key_set(s0),
            };
            assert(groups_key_set(t) =~= added) by {
                assert forall|n: Seq<char>| groups_key_set(t).contains(n) implies added.contains(
                    n,
                ) by {
                    let j = choose|j: int|
                        0 <= j < t.len() && match group_dependencies((#[trigger] t[j]).1) {
                            Some(deps) => key_set(deps).contains(n),
                            None => false,
                        };
                    if j < i {
                        assert(s0[j] == t[j]);
                    }
                }
                assert forall|n: Seq<char>| added.contains(n) implies groups_key_set(t).contains(
                    n,
                ) by {
                    if groups_key_set(s0).contains(n) {
                        let j = choose|j: int|
                            0 <= j < s0.len() && match group_dependencies((#[trigger] s0[j]).1) {
                                Some(deps) => key_set(deps).contains(n),
                                None => false,
                            };
                        assert(t[j] == s0[j]);
                    } else {
                        assert(t[i as int] == entry);
                    }
                }
            }
            if groups_declare(t) && !groups_declare(s0) {
                let j = choose|j: int|
                    0 <= j < t.len() && group_dependencies((#[trigger] t[j]).1) is Some;
                if j < i {
                    assert(s0[j] == t[j]);
                }
            }
            if groups_declare(s0) {
                let j = choose|j: int|
                    0 <= j < s0.len() && group_dependencies((#[trigger] s0[j]).1) is Some;
                assert(t[j] == s0[j]);
            }
            if group_dependencies(entry.1) is Some {
                assert(t[i as int] == entry);
            }
        }
        i = i + 1;
    }
    assert(groups@.take(i as int) =~= groups@);
    found
}

/// A name character in the sense of [`is_name_char`].
fn char_is_name(c: char) -> (r: bool)
    ensures
        r == is_name_char(c),
{
    ('a' <= c && c <= 'z') || ('A' <= c && c <= 'Z') || ('0' <= c && c <= '9') || c == '.' || c
        == '_' || c == '-'
}

/// Extract the package name from a PEP 508 requirement string.
///
/// The name is the longest leading run of `[A-Za-z0-9._-]` after leading
/// whitespace; entries with no leading name (malformed requirements) yield
/// `None`.
pub fn requirement_name(requirement: &str) -> (r: Option<String>)
    ensures
        match r {
            Some(name) => spec_requirement_name(requirement@) == Some(name@),
            None => spec_requirement_name(requirement@) is None,
        },
{
    let chars = chars_of(requirement);
    let n = chars.len();
    let start = skip_space(&chars, 0, n);
    proof {
        assert(chars@.subrange(0, n as int) =~= chars@);
    }
    let ghost t = chars@.subrange(start as int, n as int);
    let mut end = start;
    assert(chars@.subrange(end as int, n as int) =~= t);
    while end < n && char_is_name(chars[end])
        invariant
            start <= end <= n,
            n == chars@.len(),
            t == chars@.subrange(start as int, n as int),
            name_len(t) == (end - start) + name_len(chars@.subrange(end as int, n as int)),
            forall|k: int| start <= k < end ==> is_name_char(#[trigger] chars@[k]),
        decreases n - end,
    {
        assert(chars@.subrange(end as int, n as int).drop_first() =~= chars@.subrange(
            end + 1,
            n as int,
        ));
        end = end + 1;
    }
    assert(name_len(chars@.subrange(end as int, n as int)) == 0);
    if end == start {
        None
    } else {
        let name = string_of(&chars, start, end);
        assert(t.take(name_len(t) as int) =~= chars@.subrange(start as int, end as int));
        Some(name)
    }
}

} // verus!

verus! {

/// The `python` interpreter requirement is never a dependency.
pub proof fn law_python_is_never_a_dependency(doc: TomlValue)
    ensures
        !declared_main(doc).contains("python"@),
        !declared_dev(doc).contains("python"@),
{
}

/// Dependencies are the union of every place a tool can declare them, so a
/// wrong guess about which tool manages the project can never drop a
/// declaration: every name declared anywhere (except `python`) is a main or
/// a dev dependency, by where it is declared.
pub proof fn law_no_declaration_is_dropped(doc: TomlValue, name: Seq<char>)
    requires
        name != "python"@,
    ensures
        keys_of(poetry_deps(doc)).contains(name) ==> declared_main(doc).contains(name),
        requirements_of(project_deps(doc)).contains(name) ==> declared_main(doc).contains(name),
        arrays_requirements_of(optional_deps(doc)).contains(name) ==> declared_main(doc).contains(
            name,
        ),
        keys_of(poetry_dev_deps(doc)).contains(name) ==> declared_dev(doc).contains(name),
        groups_keys_of(poetry_groups(doc)).contains(name) ==> declared_dev(doc).contains(name),
        arrays_requirements_of(dependency_groups(doc)).contains(name) ==> declared_dev(
            doc,
        ).contains(name),
        requirements_of(uv_dev_deps(doc)).contains(name) ==> declared_dev(doc).contains(name),
{
}

/// Whether an array item is a requirement string declaring `name`.
pub open spec fn declares_string(item: TomlValue, name: Seq<char>) -> bool {
    item matches TomlValue::Str(s) && spec_requirement_name(s@) == Some(name)
}

/// Whether the `j`-th item of a group's array declares `name`.
pub open spec fn group_item_declares(group: TomlValue, j: int, name: Seq<char>) -> bool {
    match group {
        TomlValue::Array(items) => 0 <= j < items@.len() && declares_string(items@[j], name),
        _ => false,
    }
}

/// Every PEP 735 group is unioned and entries that are not strings (such as
/// `{include-group = "..."}`) contribute nothing, so any include-group graph,
/// with cycles or dangling references, yields exactly the union of the
/// groups' string entries; and a `[dependency-groups]` table alone is a
/// valid declaration.
pub proof fn law_include_groups_need_no_resolution(doc: TomlValue, name: Seq<char>)
    requires
        dependency_groups(doc) is Some,
    ensures
        declares_dependencies(doc),
        arrays_requirement_set(dependency_groups(doc)->Some_0).contains(name) <==> exists|
            i: int,
            j: int,
        |
            0 <= i < dependency_groups(doc)->Some_0.len() && #[trigger] group_item_declares(
                dependency_groups(doc)->Some_0[i].1,
                j,
                name,
            ),
{
    let groups = dependency_groups(doc)->Some_0;
    if arrays_requirement_set(groups).contains(name) {
        let i = choose|i: int|
            0 <= i < groups.len() && match (#[trigger] groups[i]).1 {
                TomlValue::Array(items) => requirement_set(items@).contains(name),
                _ => false,
            };
        if let TomlValue::Array(items) = groups[i].1 {
            let j = choose|j: int|
                0 <= j < items@.len() && item_requirement(#[trigger] items@[j]) == Some(name);
            assert(group_item_declares(groups[i].1, j, name));
        }
    }
    if exists|i: int, j: int|
        0 <= i < groups.len() && #[trigger] group_item_declares(groups[i].1, j, name) {
        let (i, j) = choose|i: int, j: int|
            0 <= i < groups.len() && #[trigger] group_item_declares(groups[i].1, j, name);
        if let TomlValue::Array(items) = groups[i].1 {
            assert(item_requirement(items@[j]) == Some(name));
            assert(requirement_set(items@).contains(name));
        }
    }
}

} // verus!

verus! {

/// A character of `[A-Za-z0-9._-]`, written out by its ranges.
pub open spec fn in_name_class(c: char) -> bool {
    ('a' <= c && c <= 'z') || ('A' <= c && c <= 'Z') || ('0' <= c && c <= '9') || c == '.' || c
        == '_' || c == '-'
}

proof fn lemma_trim_start_of_blanks(ws: Seq<char>, s: Seq<char>)
    requires
        forall|i: int| 0 <= i < ws.len() ==> #[trigger] ws[i] == ' ' || ws[i] == '\t',
        s.len() == 0 || !crate::text::is_space(s[0]),
    ensures
        trim_start(ws + s) == s,
    decreases ws.len(),
{
    if ws.len() > 0 {
        assert((ws + s).drop_first() =~= ws.drop_first() + s);
        assert forall|i: int| 0 <= i < ws.drop_first().len() implies #[trigger] ws.drop_first()[i]
            == ' ' || ws.drop_first()[i] == '\t' by {
            assert(ws.drop_first()[i] == ws[i + 1]);
        }
        lemma_trim_start_of_blanks(ws.drop_first(), s);
        assert(ws[0] == ' ' || ws[0] == '\t');
    } else {
        assert(ws + s =~= s);
    }
}

proof fn lemma_name_len_of_run(t: Seq<char>, rest: Seq<char>)
    requires
        forall|i: int| 0 <= i < t.len() ==> in_name_class(#[trigger] t[i]),
        rest.len() == 0 || !in_name_class(rest[0]),
    ensures
        name_len(t + rest) == t.len(),
    decreases t.len(),
{
    if t.len() > 0 {
        assert((t + rest).drop_first() =~= t.drop_first() + rest);
        assert forall|i: int| 0 <= i < t.drop_first().len() implies in_name_class(
            #[trigger] t.drop_first()[i],
        ) by {
            assert(t.drop_first()[i] == t[i + 1]);
        }
        lemma_name_len_of_run(t.drop_first(), rest);
        assert(in_name_class(t[0]));
    } else {
        assert(t + rest =~= rest);
    }
}

/// The name of a requirement is its whole leading run of `[A-Za-z0-9._-]`
/// characters, digits included, after leading blanks: for blanks `ws`, a
/// non-empty run `t` of those characters and a rest that does not continue
/// the run (such as `>=1.28`, `[extra]` or `; marker`), the name of
/// `ws + t + rest` is exactly `t`. So the name of `"boto3>=1.28"` is
/// `"boto3"`.
pub proof fn law_requirement_name_is_the_leading_run(ws: Seq<char>, t: Seq<char>, rest: Seq<char>)
    requires
        forall|i: int| 0 <= i < ws.len() ==> #[trigger] ws[i] == ' ' || ws[i] == '\t',
        t.len() > 0,
        forall|i: int| 0 <= i < t.len() ==> in_name_class(#[trigger] t[i]),
        rest.len() == 0 || !in_name_class(rest[0]),
    ensures
        spec_requirement_name(ws + t + rest) == Some(t),
{
    assert(ws + t + rest =~= ws + (t + rest));
    assert((t + rest)[0] == t[0]);
    lemma_trim_start_of_blanks(ws, t + rest);
    lemma_name_len_of_run(t, rest);
    assert((t + rest).take(t.len() as int) =~= t);
}

/// A requirement whose first character after leading blanks neither starts
/// a name nor is whitespace declares no name.
pub proof fn law_requirement_without_a_name(ws: Seq<char>, rest: Seq<char>)
    requires
        forall|i: int| 0 <= i < ws.len() ==> #[trigger] ws[i] == ' ' || ws[i] == '\t',
        rest.len() == 0 || (!in_name_class(rest[0]) && !crate::text::is_space(rest[0])),
    ensures
        spec_requirement_name(ws + rest) is None,
{
    lemma_trim_start_of_blanks(ws, rest);
}

/// Every main dependency comes from a main declaration: a key of
/// `[tool.poetry.dependencies]`, a requirement of `[project].dependencies`,
/// or a requirement of some `[project.optional-dependencies]` extra; and it
/// is never `python`. A name declared only among the dev dependencies is
/// therefore never a main dependency.
pub proof fn law_main_dependencies_come_from_main_declarations(doc: TomlValue, name: Seq<char>)
    requires
        declared_main(doc).contains(name),
    ensures
        name != "python"@,
        (lookup_table(doc, seq!["tool"@, "poetry"@, "dependencies"@]) matches Some(e) && exists|
            i: int,
        | 0 <= i < e.len() && (#[trigger] e[i]).0@ == name) || (lookup_array(
            doc,
            seq!["project"@, "dependencies"@],
        ) matches Some(items) && exists|j: int|
            0 <= j < items.len() && declares_string(#[trigger] items[j], name)) || (lookup_table(
            doc,
            seq!["project"@, "optional-dependencies"@],
        ) matches Some(extras) && exists|i: int, j: int|
            0 <= i < extras.len() && #[trigger] group_item_declares(extras[i].1, j, name)),
{
    assert(poetry_path("dependencies"@) =~= seq!["tool"@, "poetry"@, "dependencies"@]);
    assert(project_path("dependencies"@) =~= seq!["project"@, "dependencies"@]);
    assert(project_path("optional-dependencies"@) =~= seq!["project"@, "optional-dependencies"@]);
    if requirements_of(project_deps(doc)).contains(name) {
        let items = project_deps(doc)->Some_0;
        let j = choose|j: int| 0 <= j < items.len() && item_requirement(#[trigger] items[j]) == Some(name);
        assert(declares_string(items[j], name));
    }
    if arrays_requirements_of(optional_deps(doc)).contains(name) {
        let extras = optional_deps(doc)->Some_0;
        let i = choose|i: int|
            0 <= i < extras.len() && match (#[trigger] extras[i]).1 {
                TomlValue::Array(items) => requirement_set(items@).contains(name),
                _ => false,
            };
        if let TomlValue::Array(items) = extras[i].1 {
            let j = choose|j: int|
                0 <= j < items@.len() && item_requirement(#[trigger] items@[j]) == Some(name);
            assert(group_item_declares(extras[i].1, j, name));
        }
    }
}

} // verus!
