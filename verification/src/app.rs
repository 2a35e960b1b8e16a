//! The application: manifest parsing, virtualenv discovery, the file walks,
//! import matching, and the ignorefile, over one in-memory world.
//!
//! An analysis run is [`App::prepare`] (read and parse pyproject.toml,
//! locate the virtualenv, collect the Python files), then extracting the
//! imports of each file with a Python parser, then [`App::report`] (match
//! the imports against the declared dependencies and apply the ignorefile).

use vstd::prelude::*;

use crate::ignorefile::{ignored_in, ignored_packages};
use crate::imports::{import_views, Import, ImportView};
use crate::infra::env::{binding_views, Env};
use crate::infra::fs::{entry_views, file_table, file_views, walk_result, FileSystem, FsError, PyFile, WalkFilters};
use crate::infra::process::{records, CommandRunner, NullResponse};
use crate::matching::{
    aliases, candidates, dbt_adapter_module, dbt_prefix, replace_char, unused_names,
    used_by, uses, within, DependencyIndex,
};
use crate::name_map::spec_known_name;
use crate::names::{lemma_filter_sorted, lemma_sorted_unique};
use crate::pyproject::{manifest_of, Manifest, ManifestError};
use crate::text::{
    lemma_seq_lt_asymmetric, lemma_text_order_total, seq_lt, str_eq, str_lt, strictly_sorted,
    text_order, views,
};
use vstd::relations::sorted_by;
use crate::toml_doc::toml_parse;
use crate::venv::{find_venv, poetry_env_command, venv_outcome, VenvError};

verus! {

/// What to analyze.
#[derive(Debug, Clone, Copy)]
pub struct Options {
    /// Also report unused dev dependencies.
    pub dev: bool,
    /// Also search the project virtualenv for usage.
    pub virtualenv: bool,
    /// Skip the ignorefile.
    pub no_ignore: bool,
}

impl Default for Options {
    fn default() -> (r: Options)
        ensures
            !r.dev && !r.virtualenv && !r.no_ignore,
    {
        Options { dev: false, virtualenv: false, no_ignore: false }
    }
}

/// Configuration of an [`App`]'s world.
#[derive(Debug)]
pub struct NullConfig {
    /// The file tree: (path, contents); relative paths are files in the
    /// project.
    pub files: Vec<(String, String)>,
    /// Rendered command line -> canned response.
    pub commands: Vec<(String, NullResponse)>,
    /// Environment variables: (name, value).
    pub env: Vec<(String, String)>,
}

impl Default for NullConfig {
    fn default() -> (r: NullConfig)
        ensures
            r.files@.len() == 0 && r.commands@.len() == 0 && r.env@.len() == 0,
    {
        NullConfig { files: Vec::new(), commands: Vec::new(), env: Vec::new() }
    }
}

/// Why an analysis run failed.
#[derive(Debug)]
pub enum AppError {
    /// pyproject.toml cannot be read.
    Read(FsError),
    /// pyproject.toml declares no dependencies or is not TOML.
    Manifest(ManifestError),
    /// No virtualenv was found.
    Venv(VenvError),
}

impl AppError {
    /// The message shown to the user.
    pub fn message(&self) -> (r: String)
        ensures
            match self {
                AppError::Read(FsError::NotFound { path }) => r@
                    == "Nulled FileSystem: no file configured at "@ + path@,
                AppError::Manifest(ManifestError::Syntax(m)) => r@ == m@,
                AppError::Manifest(ManifestError::NoDeclarations) => r@
                    == "no dependency declarations found in pyproject.toml"@,
                AppError::Venv(VenvError::Poetry { .. }) => r@
                    == "could not locate a virtualenv; install the project with `poetry install`"@,
                AppError::Venv(VenvError::Uv) => r@
                    == "could not locate a virtualenv; run `uv sync` to create one"@,
                AppError::Venv(VenvError::Pep621) => r@
                    == "could not locate a virtualenv; activate one or create .venv in the project root"@,
            },
    {
        match self {
            AppError::Read(e) => e.message(),
            AppError::Manifest(e) => e.message(),
            AppError::Venv(e) => e.message(),
        }
    }
}

/// The declared dependencies and the Python files whose imports count.
#[derive(Debug)]
pub struct Analysis {
    pub manifest: Manifest,
    pub files: Vec<PyFile>,
}

/// The project's Python files: every `.py`/`.pyi` file with a relative path.
pub open spec fn project_files(fs: FileSystem) -> Seq<(Seq<char>, Seq<char>)> {
    walk_result(fs.files(), "./"@)
}

/// The virtualenv's Python files.
pub open spec fn venv_files(fs: FileSystem, venv: Seq<char>) -> Seq<(Seq<char>, Seq<char>)> {
    walk_result(fs.files(), venv)
}

/// What [`App::prepare`] yields in a world with this file tree, these
/// command responses and this environment.
pub open spec fn prepared(
    fs: FileSystem,
    responses: Seq<(String, NullResponse)>,
    env: Env,
    options: Options,
    r: Result<Analysis, AppError>,
) -> bool {
    match fs.read_spec("pyproject.toml"@) {
        None => r matches Err(AppError::Read(FsError::NotFound { path })) && path@
            == "pyproject.toml"@,
        Some(source) => match toml_parse(source) {
            Err(message) => r matches Err(AppError::Manifest(ManifestError::Syntax(m))) && m@
                == message,
            Ok(doc) => match r {
                Err(AppError::Read(_)) => false,
                Err(AppError::Manifest(e)) => manifest_of(doc, Err(e)),
                Err(AppError::Venv(e)) => {
                    &&& options.virtualenv
                    &&& exists|m: Manifest|
                        #[trigger] manifest_of(doc, Ok(m)) && venv_outcome(
                            fs,
                            responses,
                            env,
                            m,
                            Err(e),
                        )
                },
                Ok(a) => {
                    &&& manifest_of(doc, Ok(a.manifest))
                    &&& if options.virtualenv {
                        exists|p: String|
                            #[trigger] venv_outcome(fs, responses, env, a.manifest, Ok(p))
                                && file_views(a.files@) == venv_files(fs, p@) + project_files(fs)
                    } else {
                        file_views(a.files@) == project_files(fs)
                    }
                },
            },
        },
    }
}

/// Whether the report keeps the package `n`: the `no_ignore` option is set,
/// or the ignorefile does not list it.
pub open spec fn kept(n: Seq<char>, options: Options, ignored: Set<Seq<char>>) -> bool {
    options.no_ignore || !ignored.contains(n)
}

/// The packages of `names` that the report lists: those no import uses and
/// that it keeps, in the order of `names`.
pub open spec fn unused_among(
    names: Seq<Seq<char>>,
    imports: Seq<ImportView>,
    options: Options,
    ignored: Set<Seq<char>>,
) -> Seq<Seq<char>> {
    names.filter(|n: Seq<char>| !used_by(n, imports) && kept(n, options, ignored))
}

/// The packages the report lists, before sorting: the main dependencies no
/// import uses, then (with the `dev` option) the dev dependencies no import
/// uses, without the packages the ignorefile lists (unless `no_ignore`). The
/// report is this sequence sorted by [`text_order`]; a package that is both
/// an unused main and an unused dev dependency is listed twice.
pub open spec fn unused_report(
    main: Seq<Seq<char>>,
    dev: Seq<Seq<char>>,
    imports: Seq<ImportView>,
    options: Options,
    ignored: Set<Seq<char>>,
) -> Seq<Seq<char>> {
    unused_among(main, imports, options, ignored) + if options.dev {
        unused_among(dev, imports, options, ignored)
    } else {
        Seq::<Seq<char>>::empty()
    }
}

/// Filtering twice is filtering by both predicates.
proof fn lemma_filter_filter(s: Seq<Seq<char>>, p: spec_fn(Seq<char>) -> bool, q: spec_fn(Seq<char>) -> bool)
    ensures
        s.filter(p).filter(q) == s.filter(|n: Seq<char>| p(n) && q(n)),
    decreases s.len(),
{
    reveal_with_fuel(Seq::filter, 1);
    if s.len() > 0 {
        lemma_filter_filter(s.drop_last(), p, q);
        if p(s.last()) {
            assert(s.filter(p).drop_last() =~= s.drop_last().filter(p));
        }
    }
}

/// A strictly sorted sequence is sorted by [`text_order`].
proof fn lemma_strictly_sorted_in_order(s: Seq<Seq<char>>)
    requires
        strictly_sorted(s),
    ensures
        sorted_by(s, text_order()),
{
    assert forall|i: int, j: int| 0 <= i < j < s.len() implies #[trigger] text_order()(s[i], s[j]) by {
        lemma_seq_lt_asymmetric(s[i], s[j]);
    }
}

/// The two sorted lists merged into one sorted list, keeping every item of
/// both.
fn merge_sorted(a: Vec<String>, b: Vec<String>) -> (r: Vec<String>)
    requires
        sorted_by(views(a@), text_order()),
        sorted_by(views(b@), text_order()),
    ensures
        sorted_by(views(r@), text_order()),
        views(r@).to_multiset() == (views(a@) + views(b@)).to_multiset(),
{
    broadcast use vstd::seq_lib::group_to_multiset_ensures;
    proof {
        lemma_text_order_total();
    }
    let ghost ord = text_order();
    let ghost va = views(a@);
    let ghost vb = views(b@);
    let mut r: Vec<String> = Vec::new();
    let mut i: usize = 0;
    let mut j: usize = 0;
    assert(va.take(0) =~= Seq::<Seq<char>>::empty());
    assert(vb.take(0) =~= Seq::<Seq<char>>::empty());
    assert(views(r@) =~= Seq::<Seq<char>>::empty());
    while i < a.len() || j < b.len()
        invariant
            ord == text_order(),
            vstd::relations::total_ordering(ord),
            va == views(a@),
            vb == views(b@),
            sorted_by(va, ord),
            sorted_by(vb, ord),
            i <= a@.len(),
            j <= b@.len(),
            sorted_by(views(r@), ord),
            views(r@).to_multiset() == va.take(i as int).to_multiset().add(
                vb.take(j as int).to_multiset(),
            ),
            forall|k: int|
                0 <= k < r@.len() ==> (i < a@.len() ==> ord(#[trigger] views(r@)[k], va[i as int]))
                    && (j < b@.len() ==> ord(views(r@)[k], vb[j as int])),
        decreases a@.len() + b@.len() - i - j,
    {
        let ghost before = views(r@);
        let take_b = if i == a.len() {
            true
        } else if j == b.len() {
            false
        } else {
            str_lt(b[j].as_str(), a[i].as_str())
        };
        if take_b {
            let ghost x = vb[j as int];
            r.push(b[j].clone());
            assert(views(r@) =~= before.push(x));
            assert(vb.take(j + 1) =~= vb.take(j as int).push(x));
            proof {
                assert forall|k: int| 0 <= k < views(r@).len() - 1 implies ord(
                    #[trigger] views(r@)[k],
                    x,
                ) by {
                    assert(views(r@)[k] == before[k]);
                }
                if i < a@.len() {
                    assert(seq_lt(x, va[i as int]));
                    lemma_seq_lt_asymmetric(x, va[i as int]);
                    assert(ord(x, va[i as int]));
                }
                if j + 1 < b@.len() {
                    assert(ord(vb[j as int], vb[j + 1]));
                }
                assert forall|k: int|
                    0 <= k < r@.len() implies (i < a@.len() ==> ord(
                    #[trigger] views(r@)[k],
                    va[i as int],
                )) && (j + 1 < b@.len() ==> ord(views(r@)[k], vb[j + 1])) by {
                    if k < r@.len() - 1 {
                        assert(views(r@)[k] == before[k]);
                        if j + 1 < b@.len() {
                            assert(ord(before[k], x));
                            assert(ord(x, vb[j + 1]));
                        }
                    }
                }
                assert(sorted_by(views(r@), ord)) by {
                    assert forall|p: int, q: int| 0 <= p < q < views(r@).len() implies #[trigger] ord(
                        views(r@)[p],
                        views(r@)[q],
                    ) by {
                        assert(views(r@)[p] == before[p]);
                        if q < views(r@).len() - 1 {
                            assert(views(r@)[q] == before[q]);
                        }
                    }
                }
                before.to_multiset_ensures();
                vb.take(j as int).to_multiset_ensures();
                assert(before.push(x).to_multiset() == before.to_multiset().insert(x));
                assert(vb.take(j as int).push(x).to_multiset() == vb.take(j as int).to_multiset().insert(x));
                assert(views(r@).to_multiset() == before.to_multiset().insert(x));
                assert(vb.take(j + 1).to_multiset() == vb.take(j as int).to_multiset().insert(x));
                assert(views(r@).to_multiset() =~= va.take(i as int).to_multiset().add(
                    vb.take(j + 1).to_multiset(),
                ));
            }
            j = j + 1;
        } else {
            let ghost x = va[i as int];
            r.push(a[i].clone());
            assert(views(r@) =~= before.push(x));
            assert(va.take(i + 1) =~= va.take(i as int).push(x));
            proof {
                assert forall|k: int| 0 <= k < views(r@).len() - 1 implies ord(
                    #[trigger] views(r@)[k],
                    x,
                ) by {
                    assert(views(r@)[k] == before[k]);
                }
                if j < b@.len() {
                    assert(!seq_lt(vb[j as int], x));
                    assert(ord(x, vb[j as int]));
                }
                if i + 1 < a@.len() {
                    assert(ord(va[i as int], va[i + 1]));
                }
                assert forall|k: int|
                    0 <= k < r@.len() implies (i + 1 < a@.len() ==> ord(
                    #[trigger] views(r@)[k],
                    va[i + 1],
                )) && (j < b@.len() ==> ord(views(r@)[k], vb[j as int])) by {
                    if k < r@.len() - 1 {
                        assert(views(r@)[k] == before[k]);
                        if i + 1 < a@.len() {
                            assert(ord(before[k], x));
                            assert(ord(x, va[i + 1]));
                        }
                    }
                }
                assert(sorted_by(views(r@), ord)) by {
                    assert forall|p: int, q: int| 0 <= p < q < views(r@).len() implies #[trigger] ord(
                        views(r@)[p],
                        views(r@)[q],
                    ) by {
                        assert(views(r@)[p] == before[p]);
                        if q < views(r@).len() - 1 {
                            assert(views(r@)[q] == before[q]);
                        }
                    }
                }
                before.to_multiset_ensures();
                va.take(i as int).to_multiset_ensures();
                assert(before.push(x).to_multiset() == before.to_multiset().insert(x));
                assert(va.take(i as int).push(x).to_multiset() == va.take(i as int).to_multiset().insert(x));
                assert(views(r@).to_multiset() == before.to_multiset().insert(x));
                assert(va.take(i + 1).to_multiset() == va.take(i as int).to_multiset().insert(x));
                assert(views(r@).to_multiset() =~= va.take(i + 1).to_multiset().add(
                    vb.take(j as int).to_multiset(),
                ));
            }
            i = i + 1;
        }
    }
    assert(va.take(i as int) =~= va);
    assert(vb.take(j as int) =~= vb);
    proof {
        vstd::seq_lib::lemma_multiset_commutative(va, vb);
    }
    r
}

/// The names of `names` that the report keeps, in order.
fn keep_unlisted(names: &Vec<String>, ignored: &Vec<String>, options: &Options) -> (r: Vec<String>)
    ensures
        views(r@) == views(names@).filter(|n: Seq<char>| kept(n, *options, views(ignored@).to_set())),
{
    let ghost ign = views(ignored@).to_set();
    let ghost keep = |n: Seq<char>| kept(n, *options, ign);
    let mut r: Vec<String> = Vec::new();
    let mut i: usize = 0;
    assert(views(names@).take(0).filter(keep) =~= Seq::<Seq<char>>::empty());
    while i < names.len()
        invariant
            i <= names@.len(),
            ign == views(ignored@).to_set(),
            keep == (|n: Seq<char>| kept(n, *options, ign)),
            views(r@) == views(names@).take(i as int).filter(keep),
        decreases names@.len() - i,
    {
        let mut listed = false;
        if !options.no_ignore {
            let mut j: usize = 0;
            while j < ignored.len()
                invariant
                    j <= ignored@.len(),
                    i < names@.len(),
                    listed == exists|q: int| 0 <= q < j && views(ignored@)[q] == names@[i as int]@,
                decreases ignored@.len() - j,
            {
                if str_eq(ignored[j].as_str(), names[i].as_str()) {
                    assert(views(ignored@)[j as int] == names@[i as int]@);
                    listed = true;
                }
                j = j + 1;
            }
        }
        let ghost x = names@[i as int]@;
        proof {
            assert(listed == (!options.no_ignore && ign.contains(x))) by {
                if !options.no_ignore && ign.contains(x) {
                    let q = choose|q: int| 0 <= q < views(ignored@).len() && views(ignored@)[q] == x;
                    assert(views(ignored@)[q] == ignored@[q]@);
                }
            }
        }
        let ghost before = views(r@);
        if !listed {
            r.push(names[i].clone());
        }
        proof {
            let t = views(names@).take(i + 1);
            assert(t.drop_last() =~= views(names@).take(i as int));
            assert(t.last() == x);
            reveal_with_fuel(Seq::filter, 1);
            assert(views(r@) =~= t.filter(keep));
        }
        i = i + 1;
    }
    assert(views(names@).take(i as int) =~= views(names@));
    r
}

/// An analysis application over an in-memory world.
#[derive(Debug)]
pub struct App {
    pub fs: FileSystem,
    pub runner: CommandRunner,
    pub env: Env,
}

/// Keeps the flags of the names among the first `n` that the imports use.
proof fn lemma_unused_names(
    names: Seq<Seq<char>>,
    used: Seq<bool>,
    imports: Seq<ImportView>,
    n: int,
)
    requires
        0 <= n <= names.len(),
        used.len() == names.len(),
        forall|i: int| 0 <= i < names.len() ==> #[trigger] used[i] == used_by(names[i], imports),
    ensures
        unused_names(names, used, n) == names.take(n).filter(|x: Seq<char>| !used_by(x, imports)),
    decreases n,
{
    reveal_with_fuel(Seq::filter, 1);
    if n > 0 {
        lemma_unused_names(names, used, imports, n - 1);
        assert(names.take(n).drop_last() =~= names.take(n - 1));
    } else {
        assert(names.take(0) =~= Seq::<Seq<char>>::empty());
    }
}

/// The names of `names` that no import uses, given an index that has seen
/// all the imports.
fn unused_after(index: &DependencyIndex, imports: Ghost<Seq<ImportView>>) -> (r: Vec<String>)
    requires
        index.wf(),
        forall|i: int|
            0 <= i < index.used().len() ==> #[trigger] index.used()[i] == used_by(
                index.names()[i],
                imports@,
            ),
    ensures
        views(r@) == index.names().filter(|x: Seq<char>| !used_by(x, imports@)),
{
    let r = index.unused();
    proof {
        index.lemma_wf();
        lemma_unused_names(index.names(), index.used(), imports@, index.names().len() as int);
        assert(index.names().take(index.names().len() as int) =~= index.names());
    }
    r
}

/// The dependencies that [`unused_report`] lists, sorted.
pub fn unused_dependencies(
    manifest: &Manifest,
    imports: &Vec<Import>,
    options: &Options,
    ignored: &Vec<String>,
) -> (r: Vec<String>)
    requires
        manifest.wf(),
    ensures
        views(r@) == unused_report(
            manifest.main_names(),
            manifest.dev_names(),
            import_views(imports@),
            *options,
            views(ignored@).to_set(),
        ).sort_by(text_order()),
{
    let ghost imps = import_views(imports@);
    let mut main = DependencyIndex::new(&manifest.main_dependencies());
    let mut dev = DependencyIndex::new(&manifest.dev_dependencies());
    proof {
        main.lemma_wf();
        dev.lemma_wf();
        lemma_sorted_unique(main.names(), manifest.main_names());
        lemma_sorted_unique(dev.names(), manifest.dev_names());
    }
    let mut k: usize = 0;
    while k < imports.len()
        invariant
            k <= imports@.len(),
            imps == import_views(imports@),
            main.wf(),
            dev.wf(),
            main.names() == manifest.main_names(),
            dev.names() == manifest.dev_names(),
            main.used().len() == main.names().len(),
            dev.used().len() == dev.names().len(),
            forall|i: int|
                0 <= i < main.used().len() ==> #[trigger] main.used()[i] == used_by(
                    main.names()[i],
                    imps.take(k as int),
                ),
            forall|i: int|
                0 <= i < dev.used().len() ==> #[trigger] dev.used()[i] == used_by(
                    dev.names()[i],
                    imps.take(k as int),
                ),
        decreases imports@.len() - k,
    {
        let ghost main_before = main.used();
        let ghost dev_before = dev.used();
        main.mark_used(&imports[k]);
        dev.mark_used(&imports[k]);
        proof {
            let t = imps.take(k + 1);
            assert(t[k as int] == imports@[k as int]@);
            assert forall|i: int| 0 <= i < main.used().len() implies #[trigger] main.used()[i]
                == used_by(main.names()[i], t) by {
                let n = main.names()[i];
                if used_by(n, t) {
                    let j = choose|j: int| 0 <= j < t.len() && uses(n, #[trigger] t[j]);
                    if j < k {
                        assert(imps.take(k as int)[j] == t[j]);
                    }
                }
                if used_by(n, imps.take(k as int)) {
                    let j = choose|j: int|
                        0 <= j < k && uses(n, #[trigger] imps.take(k as int)[j]);
                    assert(t[j] == imps.take(k as int)[j]);
                }
            }
            assert forall|i: int| 0 <= i < dev.used().len() implies #[trigger] dev.used()[i]
                == used_by(dev.names()[i], t) by {
                let n = dev.names()[i];
                if used_by(n, t) {
                    let j = choose|j: int| 0 <= j < t.len() && uses(n, #[trigger] t[j]);
                    if j < k {
                        assert(imps.take(k as int)[j] == t[j]);
                    }
                }
                if used_by(n, imps.take(k as int)) {
                    let j = choose|j: int|
                        0 <= j < k && uses(n, #[trigger] imps.take(k as int)[j]);
                    assert(t[j] == imps.take(k as int)[j]);
                }
            }
        }
        k = k + 1;
    }
    assert(imps.take(k as int) =~= imps);
    let main_found = unused_after(&main, Ghost(imps));
    let dev_found = if options.dev {
        unused_after(&dev, Ghost(imps))
    } else {
        Vec::new()
    };
    let main_kept = keep_unlisted(&main_found, ignored, options);
    let dev_kept = keep_unlisted(&dev_found, ignored, options);
    let ghost ign = views(ignored@).to_set();
    let ghost unused = |n: Seq<char>| !used_by(n, imps);
    let ghost keep = |n: Seq<char>| kept(n, *options, ign);
    proof {
        lemma_filter_filter(manifest.main_names(), unused, keep);
        lemma_filter_filter(manifest.dev_names(), unused, keep);
        assert(views(main_kept@) == unused_among(manifest.main_names(), imps, *options, ign)) by {
            assert((|n: Seq<char>| unused(n) && keep(n)) =~= (|n: Seq<char>|
                !used_by(n, imps) && kept(n, *options, ign)));
        }
        assert(views(dev_kept@) == if options.dev {
            unused_among(manifest.dev_names(), imps, *options, ign)
        } else {
            Seq::<Seq<char>>::empty()
        }) by {
            assert((|n: Seq<char>| unused(n) && keep(n)) =~= (|n: Seq<char>|
                !used_by(n, imps) && kept(n, *options, ign)));
            if !options.dev {
                reveal_with_fuel(Seq::filter, 1);
                assert(views(dev_found@) =~= Seq::<Seq<char>>::empty());
            }
        }
        lemma_filter_sorted(manifest.main_names(), unused);
        lemma_filter_sorted(manifest.main_names().filter(unused), keep);
        lemma_strictly_sorted_in_order(views(main_kept@));
        if options.dev {
            lemma_filter_sorted(manifest.dev_names(), unused);
            lemma_filter_sorted(manifest.dev_names().filter(unused), keep);
        } else {
            assert(views(dev_kept@).len() == 0);
        }
        lemma_strictly_sorted_in_order(views(dev_kept@));
    }
    let ghost items = views(main_kept@) + views(dev_kept@);
    let r = merge_sorted(main_kept, dev_kept);
    proof {
        lemma_text_order_total();
        items.lemma_sort_by_ensures(text_order());
        vstd::seq_lib::lemma_sorted_unique(views(r@), items.sort_by(text_order()), text_order());
    }
    r
}

impl App {
    pub open spec fn wf(&self) -> bool {
        self.runner.wf()
    }

    /// An app over the world that `config` describes.
    pub fn create_null(config: NullConfig) -> (r: App)
        ensures
            r.wf(),
            r.fs.files() == file_table(entry_views(config.files@)),
            r.runner.responses() == config.commands@,
            r.runner.listener().log() == Seq::<crate::infra::process::Execution>::empty(),
            r.runner.listener().starts() == Seq::<Option<usize>>::empty(),
            r.env.bindings() == binding_views(config.env@),
    {
        App {
            fs: FileSystem::create_null(config.files),
            runner: CommandRunner::create_null(config.commands),
            env: Env::create_null(config.env),
        }
    }

    /// Read and parse pyproject.toml, locate the virtualenv when the
    /// `virtualenv` option asks for it, and collect the Python files whose
    /// imports count: the virtualenv's first, then the project's.
    ///
    /// Fails when pyproject.toml cannot be read or parsed, or when the
    /// virtualenv cannot be located with the `virtualenv` option set.
    pub fn prepare(&mut self, options: &Options) -> (r: Result<Analysis, AppError>)
        requires
            old(self).wf(),
        ensures
            final(self).wf(),
            final(self).fs == old(self).fs,
            final(self).env == old(self).env,
            final(self).runner.responses() == old(self).runner.responses(),
            !options.virtualenv ==> final(self).runner.listener() == old(self).runner.listener(),
            options.virtualenv ==> final(self).runner.listener() == old(self).runner.listener()
                || records(
                old(self).runner.listener(),
                final(self).runner.listener(),
                poetry_env_command(),
            ),
            r matches Ok(a) ==> a.manifest.wf(),
            prepared(old(self).fs, old(self).runner.responses(), old(self).env, *options, r),
    {
        let source = match self.fs.read_to_string_lossy("pyproject.toml") {
            Ok(source) => source,
            Err(e) => {
                return Err(AppError::Read(e));
            },
        };
        let manifest = match Manifest::parse(source.as_str()) {
            Ok(m) => m,
            Err(e) => {
                return Err(AppError::Manifest(e));
            },
        };
        let mut files: Vec<PyFile> = Vec::new();
        let ghost mut found_venv: Option<String> = None;
        if options.virtualenv {
            match find_venv(&self.fs, &mut self.runner, &self.env, &manifest) {
                Ok(venv) => {
                    files = self.fs.walk_python_files(venv.as_str(), WalkFilters::Unfiltered);
                    let mut project = self.fs.walk_python_files("./", WalkFilters::Standard);
                    let ghost v = file_views(files@);
                    let ghost p = file_views(project@);
                    files.append(&mut project);
                    assert(file_views(files@) =~= v + p);
                    proof {
                        found_venv = Some(venv);
                    }
                    assert(venv_outcome(
                        old(self).fs,
                        old(self).runner.responses(),
                        old(self).env,
                        manifest,
                        Ok(venv),
                    ));
                    assert(file_views(files@) == venv_files(old(self).fs, venv@) + project_files(
                        old(self).fs,
                    ));
                },
                Err(e) => {
                    assert(manifest_of(toml_parse(source@)->Ok_0, Ok::<Manifest, ManifestError>(manifest)));
                    return Err(AppError::Venv(e));
                },
            }
        } else {
            files = self.fs.walk_python_files("./", WalkFilters::Standard);
            assert(file_views(files@) == project_files(old(self).fs));
        }
        let r = Ok(Analysis { manifest, files });
        proof {
            if options.virtualenv {
                assert(found_venv is Some);
                let a = r->Ok_0;
                assert(file_views(a.files@) == venv_files(old(self).fs, (found_venv->Some_0)@)
                    + project_files(old(self).fs));
                assert(venv_outcome(
                    old(self).fs,
                    old(self).runner.responses(),
                    old(self).env,
                    a.manifest,
                    Ok(found_venv->Some_0),
                ));
                assert(exists|p: String|
                    #[trigger] venv_outcome(
                        old(self).fs,
                        old(self).runner.responses(),
                        old(self).env,
                        a.manifest,
                        Ok(p),
                    ) && file_views(a.files@) == venv_files(old(self).fs, p@) + project_files(
                        old(self).fs,
                    ));
                assert(venv_outcome(
                    old(self).fs,
                    old(self).runner.responses(),
                    old(self).env,
                    manifest,
                    Ok(found_venv->Some_0),
                ));
            }
        }
        assert(old(self).fs.read_spec("pyproject.toml"@) == Some(source@));
        assert(toml_parse(source@) is Ok);
        assert(manifest_of(toml_parse(source@)->Ok_0, Ok::<Manifest, ManifestError>(manifest)));
        r
    }

    /// Match the imports against the declared dependencies and return the
    /// unused ones that [`unused_report`] lists, sorted, applying the
    /// project's ignorefile unless the `no_ignore` option is set.
    pub fn report(&self, options: &Options, manifest: &Manifest, imports: &Vec<Import>) -> (r: Vec<
        String,
    >)
        requires
            manifest.wf(),
        ensures
            views(r@) == unused_report(
                manifest.main_names(),
                manifest.dev_names(),
                import_views(imports@),
                *options,
                ignored_in(self.fs),
            ).sort_by(text_order()),
    {
        let ignored = if options.no_ignore {
            Vec::new()
        } else {
            ignored_packages(&self.fs)
        };
        proof {
            let ign = views(ignored@).to_set();
            let imps = import_views(imports@);
            if options.no_ignore {
                assert((|n: Seq<char>| !used_by(n, imps) && kept(n, *options, ign)) =~= (|n: Seq<char>|
                    !used_by(n, imps) && kept(n, *options, ignored_in(self.fs))));
            }
        }
        unused_dependencies(manifest, imports, options, &ignored)
    }
}

} // verus!

verus! {

/// A character of a plain Python identifier: `[A-Za-z0-9_]`.
pub open spec fn is_identifier_char(c: char) -> bool {
    ('a' <= c && c <= 'z') || ('A' <= c && c <= 'Z') || ('0' <= c && c <= '9') || c == '_'
}

/// A non-empty name of identifier characters only: it has no `-` to respell
/// and no `.` to nest modules.
pub open spec fn is_plain_identifier(n: Seq<char>) -> bool {
    n.len() > 0 && forall|i: int| 0 <= i < n.len() ==> is_identifier_char(#[trigger] n[i])
}

/// `import <m>` for each name, in order.
pub open spec fn plain_import_views(modules: Seq<Seq<char>>) -> Seq<ImportView> {
    modules.map_values(|m: Seq<char>| ImportView { module: m, item: None })
}

proof fn lemma_replace_noop(n: Seq<char>, to: char)
    requires
        is_plain_identifier(n),
    ensures
        replace_char(n, '-', to) == n,
{
    assert(replace_char(n, '-', to) =~= n);
}

/// An identifier-shaped package without a listed alias is imported under
/// its own name only.
proof fn lemma_identifier_uses(n: Seq<char>, m: Seq<char>)
    requires
        is_plain_identifier(n),
        is_plain_identifier(m),
        spec_known_name(n) is None,
    ensures
        uses(n, ImportView { module: m, item: None }) <==> m == n,
{
    let imp = ImportView { module: m, item: None };
    lemma_replace_noop(n, '_');
    lemma_replace_noop(n, '.');
    assert(dbt_adapter_module(n) is None) by {
        if n.len() > 4 && n.take(4) == dbt_prefix() {
            assert(n.take(4)[3] == '-');
            assert(is_identifier_char(n[3]));
        }
    }
    let al = aliases(n);
    assert(al =~= seq![n, n, n]);
    assert(candidates(imp) =~= seq![m]);
    if uses(n, imp) {
        let (a, c) = choose|a: int, c: int|
            0 <= a < al.len() && 0 <= c < candidates(imp).len() && within(
                #[trigger] al[a],
                #[trigger] candidates(imp)[c],
            );
        assert(al[a] == n && candidates(imp)[c] == m);
        if m != n {
            assert(m.len() > n.len() && m[n.len() as int] == '.');
            assert(is_identifier_char(m[n.len() as int]));
        }
    }
    if m == n {
        assert(within(al[0], candidates(imp)[0]));
    }
}

/// Filtering by two predicates that agree on every element gives the same
/// result.
proof fn lemma_filter_agree(s: Seq<Seq<char>>, p: spec_fn(Seq<char>) -> bool, q: spec_fn(Seq<char>) -> bool)
    requires
        forall|i: int| 0 <= i < s.len() ==> p(#[trigger] s[i]) == q(s[i]),
    ensures
        s.filter(p) == s.filter(q),
    decreases s.len(),
{
    reveal_with_fuel(Seq::filter, 1);
    if s.len() > 0 {
        assert forall|i: int| 0 <= i < s.drop_last().len() implies p(
            #[trigger] s.drop_last()[i],
        ) == q(s.drop_last()[i]) by {
            assert(s.drop_last()[i] == s[i]);
        }
        lemma_filter_agree(s.drop_last(), p, q);
        assert(p(s[s.len() - 1]) == q(s[s.len() - 1]));
    }
}

/// For packages declared under plain identifier names that the name map
/// does not list, and plain `import <name>` statements, the report (without
/// dev dependencies, and with the ignorefile skipped or listing nothing)
/// lists exactly the declared names that are not imported.
pub proof fn law_report_is_declared_minus_imported(
    main: Seq<Seq<char>>,
    dev: Seq<Seq<char>>,
    imported: Seq<Seq<char>>,
    options: Options,
    ignored: Set<Seq<char>>,
)
    requires
        forall|i: int|
            0 <= i < main.len() ==> is_plain_identifier(#[trigger] main[i]) && spec_known_name(
                main[i],
            ) is None,
        forall|j: int| 0 <= j < imported.len() ==> is_plain_identifier(#[trigger] imported[j]),
        !options.dev,
        options.no_ignore || ignored == Set::<Seq<char>>::empty(),
    ensures
        unused_report(main, dev, plain_import_views(imported), options, ignored) == main.filter(
            |n: Seq<char>| !imported.contains(n),
        ),
{
    let imps = plain_import_views(imported);
    let p = |n: Seq<char>| !used_by(n, imps) && kept(n, options, ignored);
    let q = |n: Seq<char>| !imported.contains(n);
    assert forall|i: int| 0 <= i < main.len() implies p(#[trigger] main[i]) == q(main[i]) by {
        let n = main[i];
        if used_by(n, imps) {
            let k = choose|k: int| 0 <= k < imps.len() && uses(n, #[trigger] imps[k]);
            assert(imps[k] == ImportView { module: imported[k], item: None });
            lemma_identifier_uses(n, imported[k]);
        }
        if imported.contains(n) {
            let k = choose|k: int| 0 <= k < imported.len() && imported[k] == n;
            assert(imps[k] == ImportView { module: imported[k], item: None });
            lemma_identifier_uses(n, imported[k]);
        }
    }
    lemma_filter_agree(main, p, q);
    assert(unused_report(main, dev, imps, options, ignored) =~= main.filter(p));
}

/// Unless the `no_ignore` option is set, no package the ignorefile lists is
/// reported; with it, the ignorefile changes nothing.
pub proof fn law_ignorefile_filters_the_report(
    main: Seq<Seq<char>>,
    dev: Seq<Seq<char>>,
    imports: Seq<ImportView>,
    options: Options,
    ignored: Set<Seq<char>>,
    other: Set<Seq<char>>,
)
    ensures
        !options.no_ignore ==> forall|i: int|
            0 <= i < unused_report(main, dev, imports, options, ignored).len() ==> !ignored.contains(
                #[trigger] unused_report(main, dev, imports, options, ignored)[i],
            ),
        options.no_ignore ==> unused_report(main, dev, imports, options, ignored) == unused_report(
            main,
            dev,
            imports,
            options,
            other,
        ),
{
    broadcast use vstd::seq::Seq::lemma_filter_pred;

    if options.no_ignore {
        assert((|n: Seq<char>| !used_by(n, imports) && kept(n, options, ignored)) =~= (|n: Seq<char>|
            !used_by(n, imports) && kept(n, options, other)));
    } else {
        let r = unused_report(main, dev, imports, options, ignored);
        let m = unused_among(main, imports, options, ignored);
        let d = unused_among(dev, imports, options, ignored);
        assert forall|i: int| 0 <= i < r.len() implies !ignored.contains(#[trigger] r[i]) by {
            if i < m.len() {
                assert(r[i] == m[i]);
            } else {
                assert(r[i] == d[i - m.len()]);
            }
        }
    }
}

/// Dev dependencies are reported only with the `dev` option: without it the
/// report does not depend on them.
pub proof fn law_dev_dependencies_need_the_option(
    main: Seq<Seq<char>>,
    dev: Seq<Seq<char>>,
    other_dev: Seq<Seq<char>>,
    imports: Seq<ImportView>,
    options: Options,
    ignored: Set<Seq<char>>,
)
    requires
        !options.dev,
    ensures
        unused_report(main, dev, imports, options, ignored) == unused_report(
            main,
            other_dev,
            imports,
            options,
            ignored,
        ),
{
}

/// With the `dev` option the report lists what it lists without it and, on
/// top of that, the unused dev dependencies the ignorefile lets through; a
/// package that is both an unused main and an unused dev dependency is
/// listed twice.
pub proof fn law_dev_option_adds_the_unused_dev_dependencies(
    main: Seq<Seq<char>>,
    dev: Seq<Seq<char>>,
    imports: Seq<ImportView>,
    options: Options,
    ignored: Set<Seq<char>>,
)
    requires
        options.dev,
    ensures
        unused_report(main, dev, imports, options, ignored).to_multiset() == unused_report(
            main,
            dev,
            imports,
            Options { dev: false, ..options },
            ignored,
        ).to_multiset().add(unused_among(dev, imports, options, ignored).to_multiset()),
{
    let m = unused_among(main, imports, options, ignored);
    let d = unused_among(dev, imports, options, ignored);
    let o = Options { dev: false, ..options };
    assert(unused_among(main, imports, o, ignored) == m) by {
        assert((|n: Seq<char>| !used_by(n, imports) && kept(n, o, ignored)) =~= (|n: Seq<char>|
            !used_by(n, imports) && kept(n, options, ignored)));
    }
    assert(unused_report(main, dev, imports, o, ignored) =~= m);
    vstd::seq_lib::lemma_multiset_commutative(m, d);
}

/// The report lists a package exactly when it is declared (as a main
/// dependency, or as a dev dependency with the `dev` option), no import uses
/// it, and either the `no_ignore` option is set or the ignorefile lists that
/// very name: an ignorefile entry hides no other package, not even one whose
/// name it begins.
pub proof fn law_report_lists_exactly_the_unused_unlisted_packages(
    main: Seq<Seq<char>>,
    dev: Seq<Seq<char>>,
    imports: Seq<ImportView>,
    options: Options,
    ignored: Set<Seq<char>>,
    n: Seq<char>,
)
    ensures
        unused_report(main, dev, imports, options, ignored).contains(n) <==> ((main.contains(n) || (
        options.dev && dev.contains(n))) && !used_by(n, imports) && (options.no_ignore
            || !ignored.contains(n))),
{
    broadcast use vstd::seq_lib::group_filter_ensures;

    let p = |x: Seq<char>| !used_by(x, imports) && kept(x, options, ignored);
    let m = main.filter(p);
    let d = dev.filter(p);
    let r = unused_report(main, dev, imports, options, ignored);
    if r.contains(n) {
        let k = choose|k: int| 0 <= k < r.len() && r[k] == n;
        if k < m.len() {
            assert(r[k] == m[k]);
            assert(m.contains(n));
            main.lemma_filter_contains_rev(p, n);
        } else {
            assert(options.dev);
            assert(r[k] == d[k - m.len()]);
            assert(d.contains(n));
            dev.lemma_filter_contains_rev(p, n);
        }
    }
    if (main.contains(n) || (options.dev && dev.contains(n))) && !used_by(n, imports) && (
    options.no_ignore || !ignored.contains(n)) {
        if main.contains(n) {
            let k = choose|k: int| 0 <= k < main.len() && main[k] == n;
            main.lemma_filter_contains(p, k);
            let q = choose|q: int| 0 <= q < m.len() && m[q] == n;
            assert(r[q] == m[q]);
        } else {
            let k = choose|k: int| 0 <= k < dev.len() && dev[k] == n;
            dev.lemma_filter_contains(p, k);
            let q = choose|q: int| 0 <= q < d.len() && d[q] == n;
            assert(r[m.len() + q] == d[q]);
        }
    }
}

} // verus!
