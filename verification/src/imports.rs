//! Imports as the analysis sees them, and the rules that turn the import
//! statements of a Python syntax tree into them.
//!
//! A syntax tree walk (in the order of the source, including statements
//! nested in functions, classes, `try` blocks and conditionals) yields
//! [`ImportStatement`]s; [`imports_of`] decides what each one imports.

use vstd::prelude::*;

use crate::text::chars_of;

verus! {

/// One imported module, as written in the source.
#[derive(Debug, Clone, PartialEq, Eq)]
pub struct Import {
    /// Dotted absolute module path, e.g. `google.cloud`.
    pub module: String,
    /// For `from X import Y`, the name Y (one `Import` per name).
    /// `None` for plain `import X` and for `from X import *`.
    pub item: Option<String>,
}

/// The text of an [`Import`].
pub struct ImportView {
    pub module: Seq<char>,
    pub item: Option<Seq<char>>,
}

impl View for Import {
    type V = ImportView;

    open spec fn view(&self) -> ImportView {
        ImportView {
            module: self.module@,
            item: match self.item {
                Some(i) => Some(i@),
                None => None,
            },
        }
    }
}

/// An import-related construct of a Python syntax tree.
#[derive(Debug, Clone)]
pub enum ImportStatement {
    /// `import a.b, c as d`: the dotted module names (`a.b`, `c`).
    Import { names: Vec<String> },
    /// `from <level dots><module> import <names>`; `module` is absent for
    /// `from . import x`, and `names` holds `*` for a star import.
    ImportFrom { module: Option<String>, level: u32, names: Vec<String> },
    /// `importlib.import_module("...")` or `__import__("...")` with a string
    /// literal as its first argument: that literal.
    Dynamic { module: String },
}

/// The imports a plain `import` statement makes: one per name.
pub open spec fn plain_imports(names: Seq<String>) -> Seq<ImportView> {
    names.map_values(|n: String| ImportView { module: n@, item: None })
}

/// The imports a `from module import names` statement makes: one per name,
/// with no item for `*`.
pub open spec fn from_imports(module: Seq<char>, names: Seq<String>) -> Seq<ImportView> {
    names.map_values(
        |n: String|
            ImportView { module, item: if n@ == seq!['*'] { None } else { Some(n@) } },
    )
}

/// What one construct imports. Relative imports (`from . import x`, a
/// dynamic import of `.x`) are excluded because they can never refer to a
/// third-party distribution.
pub open spec fn statement_imports(st: ImportStatement) -> Seq<ImportView> {
    match st {
        ImportStatement::Import { names } => plain_imports(names@),
        ImportStatement::ImportFrom { module, level, names } => match module {
            Some(m) => if level == 0 {
                from_imports(m@, names@)
            } else {
                seq![]
            },
            None => seq![],
        },
        ImportStatement::Dynamic { module } => if module@.len() == 0 || module@[0] == '.' {
            seq![]
        } else {
            seq![ImportView { module: module@, item: None }]
        },
    }
}

/// What a sequence of constructs imports, in order.
pub open spec fn statements_imports(sts: Seq<ImportStatement>) -> Seq<ImportView>
    decreases sts.len(),
{
    if sts.len() == 0 {
        seq![]
    } else {
        statements_imports(sts.drop_last()) + statement_imports(sts.last())
    }
}

/// The texts of a sequence of imports.
pub open spec fn import_views(v: Seq<Import>) -> Seq<ImportView> {
    v.map_values(|i: Import| i@)
}

/// Appends what one construct imports to `out`.
fn push_statement_imports(out: &mut Vec<Import>, st: &ImportStatement)
    ensures
        import_views(final(out)@) == import_views(old(out)@) + statement_imports(*st),
{
    let ghost start = import_views(out@);
    match st {
        ImportStatement::Import { names } => {
            let mut i: usize = 0;
            while i < names.len()
                invariant
                    i <= names@.len(),
                    import_views(out@) == start + plain_imports(names@.take(i as int)),
                decreases names@.len() - i,
            {
                let ghost before = out@;
                out.push(Import { module: names[i].clone(), item: None });
                proof {
                    assert(import_views(out@) =~= import_views(before).push(
                        ImportView { module: names@[i as int]@, item: None },
                    ));
                    assert(plain_imports(names@.take(i + 1)) =~= plain_imports(
                        names@.take(i as int),
                    ).push(ImportView { module: names@[i as int]@, item: None }));
                }
                i = i + 1;
            }
            assert(names@.take(i as int) =~= names@);
        },
        ImportStatement::ImportFrom { module, level, names } => {
            if let Some(m) = module {
                if *level == 0 {
                    let mut i: usize = 0;
                    while i < names.len()
                        invariant
                            i <= names@.len(),
                            import_views(out@) == start + from_imports(m@, names@.take(i as int)),
                        decreases names@.len() - i,
                    {
                        let ghost before = out@;
                        let star = chars_of(names[i].as_str());
                        let is_star = star.len() == 1 && star[0] == '*';
                        proof {
                            assert(is_star == (names@[i as int]@ == seq!['*'])) by {
                                if star@.len() == 1 && star@[0] == '*' {
                                    assert(star@ =~= seq!['*']);
                                }
                            }
                        }
                        let item = if is_star {
                            None
                        } else {
                            Some(names[i].clone())
                        };
                        let ghost iv = ImportView {
                            module: m@,
                            item: if names@[i as int]@ == seq!['*'] {
                                None
                            } else {
                                Some(names@[i as int]@)
                            },
                        };
                        out.push(Import { module: m.clone(), item });
                        proof {
                            assert(import_views(out@) =~= import_views(before).push(iv));
                            assert(from_imports(m@, names@.take(i + 1)) =~= from_imports(
                                m@,
                                names@.take(i as int),
                            ).push(iv));
                        }
                        i = i + 1;
                    }
                    assert(names@.take(i as int) =~= names@);
                } else {
                    assert(import_views(out@) =~= start + seq![]);
                }
            } else {
                assert(import_views(out@) =~= start + seq![]);
            }
        },
        ImportStatement::Dynamic { module } => {
            let chars = chars_of(module.as_str());
            if chars.len() == 0 || chars[0] == '.' {
                assert(import_views(out@) =~= start + seq![]);
            } else {
                let ghost before = out@;
                out.push(Import { module: module.clone(), item: None });
                assert(import_views(out@) =~= import_views(before) + seq![
                    ImportView { module: module@, item: None },
                ]);
            }
        },
    }
}

/// The imports that a sequence of import constructs makes, in order.
pub fn imports_of(statements: &Vec<ImportStatement>) -> (r: Vec<Import>)
    ensures
        import_views(r@) == statements_imports(statements@),
{
    let mut out: Vec<Import> = Vec::new();
    let mut i: usize = 0;
    assert(import_views(out@) =~= seq![]);
    while i < statements.len()
        invariant
            i <= statements@.len(),
            import_views(out@) == statements_imports(statements@.take(i as int)),
        decreases statements@.len() - i,
    {
        push_statement_imports(&mut out, &statements[i]);
        proof {
            let t = statements@.take(i + 1);
            assert(t.drop_last() =~= statements@.take(i as int));
            assert(t.last() == statements@[i as int]);
        }
        i = i + 1;
    }
    assert(statements@.take(i as int) =~= statements@);
    out
}

} // verus!
