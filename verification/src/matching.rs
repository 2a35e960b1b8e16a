//! Matching imports against declared dependencies.
//!
//! A package is imported under names derived from its declared name: the
//! name itself, the name with `-` read as `_` or as `.`, the same three
//! spellings of the import name the name map lists for it, and for dbt
//! adapter packages (`dbt-<x>`) the module `dbt.adapters.<x>`. An import
//! uses a package when the imported module (or, for `from m import i`, the
//! path `m.i`) is one of those names or lies inside one of them.

use vstd::prelude::*;

use crate::imports::{Import, ImportView};
use crate::name_map::{known_name, spec_known_name};
use crate::names::NameSet;
use crate::text::{chars_of, strictly_sorted, views};

verus! {

/// `name` with every `from` replaced by `to`.
pub open spec fn replace_char(name: Seq<char>, from: char, to: char) -> Seq<char> {
    name.map_values(|c: char| if c == from { to } else { c })
}

/// A name as written, with `-` as `_`, and with `-` as `.`.
pub open spec fn spellings(name: Seq<char>) -> Seq<Seq<char>> {
    seq![name, replace_char(name, '-', '_'), replace_char(name, '-', '.')]
}

/// `dbt-`
pub open spec fn dbt_prefix() -> Seq<char> {
    seq!['d', 'b', 't', '-']
}

/// `dbt.adapters.`
pub open spec fn dbt_adapters() -> Seq<char> {
    seq!['d', 'b', 't', '.', 'a', 'd', 'a', 'p', 't', 'e', 'r', 's', '.']
}

/// The module a dbt adapter package (`dbt-<x>`) provides:
/// `dbt.adapters.<x>`, with `-` in `<x>` as `_`.
pub open spec fn dbt_adapter_module(name: Seq<char>) -> Option<Seq<char>> {
    if name.len() > 4 && name.take(4) == dbt_prefix() {
        Some(dbt_adapters() + replace_char(name.skip(4), '-', '_'))
    } else {
        None
    }
}

/// Every module name under which the package `name` may be imported.
pub open spec fn aliases(name: Seq<char>) -> Seq<Seq<char>> {
    spellings(name) + match spec_known_name(name) {
        Some(known) => spellings(known),
        None => seq![],
    } + match dbt_adapter_module(name) {
        Some(m) => seq![m],
        None => seq![],
    }
}

/// The dotted paths an import names: the module, and for `from m import i`
/// also `m.i`.
pub open spec fn candidates(import: ImportView) -> Seq<Seq<char>> {
    match import.item {
        Some(item) => seq![import.module, import.module + seq!['.'] + item],
        None => seq![import.module],
    }
}

/// Whether the dotted path `path` is the module `alias` or lies inside it.
pub open spec fn within(alias: Seq<char>, path: Seq<char>) -> bool {
    ||| path == alias
    ||| (path.len() > alias.len() && path.take(alias.len() as int) == alias && path[alias.len() as int]
        == '.')
}

/// Whether an import uses the package `name`.
pub open spec fn uses(name: Seq<char>, import: ImportView) -> bool {
    exists|a: int, c: int|
        0 <= a < aliases(name).len() && 0 <= c < candidates(import).len() && within(
            #[trigger] aliases(name)[a],
            #[trigger] candidates(import)[c],
        )
}

/// Whether any of the imports uses the package `name`.
pub open spec fn used_by(name: Seq<char>, imports: Seq<ImportView>) -> bool {
    exists|k: int| 0 <= k < imports.len() && uses(name, #[trigger] imports[k])
}

/// `chars` with every `from` replaced by `to`.
fn replaced(chars: &Vec<char>, from: char, to: char) -> (r: Vec<char>)
    ensures
        r@ == replace_char(chars@, from, to),
{
    let mut r: Vec<char> = Vec::new();
    let mut i: usize = 0;
    while i < chars.len()
        invariant
            i <= chars@.len(),
            r@ == replace_char(chars@.take(i as int), from, to),
        decreases chars@.len() - i,
    {
        let c = chars[i];
        r.push(if c == from { to } else { c });
        i = i + 1;
        assert(r@ =~= replace_char(chars@.take(i as int), from, to));
    }
    assert(chars@.take(i as int) =~= chars@);
    r
}

/// The texts of a vector of character vectors.
pub open spec fn char_views(v: Seq<Vec<char>>) -> Seq<Seq<char>> {
    v.map_values(|c: Vec<char>| c@)
}

/// Appends the three spellings of `name` to `out`.
fn push_spellings(out: &mut Vec<Vec<char>>, name: Vec<char>)
    ensures
        char_views(final(out)@) == char_views(old(out)@) + spellings(name@),
{
    let ghost start = char_views(out@);
    let under = replaced(&name, '-', '_');
    let dotted = replaced(&name, '-', '.');
    let ghost n = name@;
    out.push(name);
    out.push(under);
    out.push(dotted);
    assert(char_views(out@) =~= start + spellings(n));
}

/// Every module name under which the package `name` may be imported.
fn alias_list(name: &str) -> (r: Vec<Vec<char>>)
    ensures
        char_views(r@) == aliases(name@),
{
    let mut r: Vec<Vec<char>> = Vec::new();
    assert(char_views(r@) =~= seq![]);
    let chars = chars_of(name);
    push_spellings(&mut r, chars_of(name));
    let ghost after_own = char_views(r@);
    match known_name(name) {
        Some(known) => {
            push_spellings(&mut r, chars_of(known));
        },
        None => {
            assert(char_views(r@) =~= after_own + seq![]);
        },
    }
    let ghost after_known = char_views(r@);
    let prefix = chars_of("dbt-");
    let adapters = chars_of("dbt.adapters.");
    proof {
        reveal_strlit("dbt-");
        reveal_strlit("dbt.adapters.");
        assert(prefix@ =~= dbt_prefix());
        assert(adapters@ =~= dbt_adapters());
    }
    let mut is_adapter = chars.len() > 4;
    let mut i: usize = 0;
    while is_adapter && i < 4
        invariant
            i <= 4,
            prefix@ == dbt_prefix(),
            is_adapter ==> chars@.len() > 4 && chars@.take(i as int) == dbt_prefix().take(i as int),
            !is_adapter ==> dbt_adapter_module(chars@) is None,
        decreases 4 - i,
    {
        if chars[i] != prefix[i] {
            is_adapter = false;
            assert(chars@.take(4)[i as int] != dbt_prefix()[i as int]);
        } else {
            assert(chars@.take(i + 1) =~= chars@.take(i as int).push(chars@[i as int]));
            assert(dbt_prefix().take(i + 1) =~= dbt_prefix().take(i as int).push(
                dbt_prefix()[i as int],
            ));
        }
        i = i + 1;
    }
    if is_adapter {
        assert(dbt_prefix().take(4) =~= dbt_prefix());
        let mut module = adapters;
        let mut j: usize = 4;
        let ghost base = module@;
        while j < chars.len()
            invariant
                4 <= j <= chars@.len(),
                module@ == base + replace_char(chars@.subrange(4, j as int), '-', '_'),
            decreases chars@.len() - j,
        {
            let c = chars[j];
            module.push(if c == '-' { '_' } else { c });
            j = j + 1;
            assert(module@ =~= base + replace_char(chars@.subrange(4, j as int), '-', '_'));
        }
        assert(chars@.subrange(4, chars@.len() as int) =~= chars@.skip(4));
        let ghost m = module@;
        r.push(module);
        assert(char_views(r@) =~= after_known + seq![m]);
    } else {
        assert(char_views(r@) =~= after_known + seq![]);
    }
    r
}

/// Whether the dotted path `path` is the module `alias` or lies inside it.
fn chars_within(alias: &Vec<char>, path: &Vec<char>) -> (r: bool)
    ensures
        r == within(alias@, path@),
{
    if path.len() < alias.len() {
        return false;
    }
    let mut i: usize = 0;
    while i < alias.len()
        invariant
            alias@.len() <= path@.len(),
            i <= alias@.len(),
            forall|k: int| 0 <= k < i ==> alias@[k] == path@[k],
        decreases alias@.len() - i,
    {
        if alias[i] != path[i] {
            assert(path@.take(alias@.len() as int)[i as int] != alias@[i as int]);
            return false;
        }
        i = i + 1;
    }
    assert(path@.take(alias@.len() as int) =~= alias@);
    if path.len() == alias.len() {
        assert(path@ =~= alias@);
        true
    } else {
        path[alias.len()] == '.'
    }
}

/// The dotted paths an import names.
fn candidate_list(import: &Import) -> (r: Vec<Vec<char>>)
    ensures
        char_views(r@) == candidates(import@),
{
    let module = chars_of(import.module.as_str());
    let mut r: Vec<Vec<char>> = Vec::new();
    match &import.item {
        Some(item) => {
            assert(import@.item == Some(item@));
            let mut joined = chars_of(import.module.as_str());
            joined.push('.');
            let item_chars = chars_of(item.as_str());
            let mut k: usize = 0;
            let ghost base = joined@;
            while k < item_chars.len()
                invariant
                    k <= item_chars@.len(),
                    joined@ == base + item_chars@.take(k as int),
                decreases item_chars@.len() - k,
            {
                joined.push(item_chars[k]);
                k = k + 1;
                assert(joined@ =~= base + item_chars@.take(k as int));
            }
            assert(item_chars@.take(k as int) =~= item_chars@);
            assert(joined@ =~= import@.module + seq!['.'] + item@);
            let ghost m = module@;
            let ghost j = joined@;
            r.push(module);
            r.push(joined);
            assert(char_views(r@) =~= seq![m, j]);
        },
        None => {
            assert(import@.item is None);
            let ghost m = module@;
            r.push(module);
            assert(char_views(r@) =~= seq![m]);
        },
    }
    r
}

/// Whether some alias covers some candidate path.
fn any_within(aliases: &Vec<Vec<char>>, paths: &Vec<Vec<char>>) -> (r: bool)
    ensures
        r == exists|a: int, c: int|
            0 <= a < aliases@.len() && 0 <= c < paths@.len() && within(
                #[trigger] char_views(aliases@)[a],
                #[trigger] char_views(paths@)[c],
            ),
{
    let mut a: usize = 0;
    while a < aliases.len()
        invariant
            a <= aliases@.len(),
            forall|x: int, c: int|
                0 <= x < a && 0 <= c < paths@.len() ==> !within(
                    #[trigger] char_views(aliases@)[x],
                    #[trigger] char_views(paths@)[c],
                ),
        decreases aliases@.len() - a,
    {
        let mut c: usize = 0;
        while c < paths.len()
            invariant
                a < aliases@.len(),
                c <= paths@.len(),
                forall|x: int, y: int|
                    0 <= x < a && 0 <= y < paths@.len() ==> !within(
                        #[trigger] char_views(aliases@)[x],
                        #[trigger] char_views(paths@)[y],
                    ),
                forall|y: int|
                    0 <= y < c ==> !within(
                        char_views(aliases@)[a as int],
                        #[trigger] char_views(paths@)[y],
                    ),
            decreases paths@.len() - c,
        {
            if chars_within(&aliases[a], &paths[c]) {
                assert(within(char_views(aliases@)[a as int], char_views(paths@)[c as int]));
                return true;
            }
            c = c + 1;
        }
        a = a + 1;
    }
    false
}

/// The packages declared in one dependency list, each with the module names
/// it is imported under and whether an import has used it yet.
#[derive(Debug)]
pub struct DependencyIndex {
    names: Vec<String>,
    aliases: Vec<Vec<Vec<char>>>,
    used: Vec<bool>,
}

impl DependencyIndex {
    /// The package names, ascending.
    pub closed spec fn names(&self) -> Seq<Seq<char>> {
        views(self.names@)
    }

    /// For each package, whether an import has used it.
    pub closed spec fn used(&self) -> Seq<bool> {
        self.used@
    }

    pub closed spec fn wf(&self) -> bool {
        &&& self.names@.len() == self.aliases@.len()
        &&& self.names@.len() == self.used@.len()
        &&& strictly_sorted(self.names())
        &&& forall|i: int|
            0 <= i < self.names@.len() ==> char_views(#[trigger] self.aliases@[i]@) == aliases(
                self.names@[i]@,
            )
    }

    /// A well-formed index has one flag per name, and ascending names.
    pub proof fn lemma_wf(&self)
        requires
            self.wf(),
        ensures
            self.used().len() == self.names().len(),
            strictly_sorted(self.names()),
    {
    }

    /// An index of the given package names, none of them used yet.
    pub fn new(names: &Vec<String>) -> (r: DependencyIndex)
        ensures
            r.wf(),
            r.names().to_set() == views(names@).to_set(),
            r.used() == Seq::new(r.names().len(), |i: int| false),
    {
        let mut set = NameSet::new();
        let mut i: usize = 0;
        while i < names.len()
            invariant
                i <= names@.len(),
                set.wf(),
                set.seq().to_set() == views(names@).take(i as int).to_set(),
            decreases names@.len() - i,
        {
            set.insert(names[i].clone());
            proof {
                views(names@).take(i as int).lemma_push_to_set_commute(names@[i as int]@);
                assert(views(names@).take(i + 1) =~= views(names@).take(i as int).push(
                    names@[i as int]@,
                ));
            }
            i = i + 1;
        }
        assert(views(names@).take(i as int) =~= views(names@));
        let sorted = set.to_vec();
        let mut alias_table: Vec<Vec<Vec<char>>> = Vec::new();
        let mut used: Vec<bool> = Vec::new();
        let mut k: usize = 0;
        while k < sorted.len()
            invariant
                k <= sorted@.len(),
                alias_table@.len() == k,
                used@.len() == k,
                forall|j: int| 0 <= j < k ==> !used@[j],
                forall|j: int|
                    0 <= j < k ==> char_views(#[trigger] alias_table@[j]@) == aliases(
                        sorted@[j]@,
                    ),
            decreases sorted@.len() - k,
        {
            alias_table.push(alias_list(sorted[k].as_str()));
            used.push(false);
            k = k + 1;
        }
        let r = DependencyIndex { names: sorted, aliases: alias_table, used };
        assert(r.used() =~= Seq::new(r.names().len(), |i: int| false));
        r
    }

    /// Marks every package this import uses, and returns their names,
    /// ascending.
    pub fn mark_used(&mut self, import: &Import) -> (found: Vec<String>)
        requires
            old(self).wf(),
        ensures
            final(self).wf(),
            final(self).names() == old(self).names(),
            final(self).used().len() == old(self).used().len(),
            forall|i: int|
                0 <= i < old(self).used().len() ==> #[trigger] final(self).used()[i] == (old(
                    self,
                ).used()[i] || uses(old(self).names()[i], import@)),
            views(found@) == old(self).names().filter(|n: Seq<char>| uses(n, import@)),
    {
        let paths = candidate_list(import);
        let mut found: Vec<String> = Vec::new();
        let ghost names0 = self.names();
        let ghost used0 = self.used();
        let mut i: usize = 0;
        assert(names0.take(0).filter(|n: Seq<char>| uses(n, import@)) =~= seq![]);
        while i < self.names.len()
            invariant
                self.wf(),
                self.names() == names0,
                self.used().len() == used0.len(),
                names0.len() == used0.len(),
                i <= names0.len(),
                char_views(paths@) == candidates(import@),
                forall|j: int|
                    0 <= j < used0.len() ==> #[trigger] self.used()[j] == if j < i {
                        used0[j] || uses(names0[j], import@)
                    } else {
                        used0[j]
                    },
                views(found@) == names0.take(i as int).filter(|n: Seq<char>| uses(n, import@)),
            decreases names0.len() - i,
        {
            let hit = any_within(&self.aliases[i], &paths);
            proof {
                let al = char_views(self.aliases@[i as int]@);
                let cs = char_views(paths@);
                assert(al == aliases(names0[i as int]));
                if hit {
                    let (a, c) = choose|a: int, c: int|
                        0 <= a < self.aliases@[i as int]@.len() && 0 <= c < paths@.len()
                            && within(#[trigger] al[a], #[trigger] cs[c]);
                    assert(within(aliases(names0[i as int])[a], candidates(import@)[c]));
                } else {
                    assert forall|a: int, c: int|
                        0 <= a < aliases(names0[i as int]).len() && 0 <= c < candidates(
                            import@,
                        ).len() implies !within(
                        #[trigger] aliases(names0[i as int])[a],
                        #[trigger] candidates(import@)[c],
                    ) by {
                        assert(!within(al[a], cs[c]));
                    }
                }
            }
            let ghost before = found@;
            if hit {
                found.push(self.names[i].clone());
                self.used.set(i, true);
            }
            proof {
                let t = names0.take(i + 1);
                assert(t.drop_last() =~= names0.take(i as int));
                assert(t.last() == names0[i as int]);
                reveal_with_fuel(Seq::filter, 1);
                assert(views(found@) =~= t.filter(|n: Seq<char>| uses(n, import@)));
            }
            i = i + 1;
        }
        assert(names0.take(i as int) =~= names0);
        found
    }

    /// The names of the packages no import has used, ascending.
    pub fn unused(&self) -> (r: Vec<String>)
        requires
            self.wf(),
        ensures
            views(r@) == unused_names(self.names(), self.used(), self.names().len() as int),
    {
        let mut r: Vec<String> = Vec::new();
        let mut i: usize = 0;
        assert(views(r@) =~= seq![]);
        while i < self.names.len()
            invariant
                self.wf(),
                i <= self.names@.len(),
                views(r@) == unused_names(self.names(), self.used(), i as int),
            decreases self.names@.len() - i,
        {
            let ghost before = r@;
            if !self.used[i] {
                r.push(self.names[i].clone());
                assert(views(r@) =~= views(before).push(self.names()[i as int]));
            }
            i = i + 1;
        }
        r
    }
}

/// The names among the first `n` whose flag is not set, in order.
pub open spec fn unused_names(names: Seq<Seq<char>>, used: Seq<bool>, n: int) -> Seq<Seq<char>>
    decreases n,
{
    if n <= 0 {
        seq![]
    } else if !used[n - 1] {
        unused_names(names, used, n - 1).push(names[n - 1])
    } else {
        unused_names(names, used, n - 1)
    }
}

} // verus!

verus! {

/// A package is used by an import of its own name, of either respelling of
/// its dashes, of any module inside its name, and by `from <name> import x`;
/// also by an import of the name the name map lists for it, and a dbt
/// adapter package by an import of its adapter module.
pub proof fn law_own_names_are_used(name: Seq<char>, inner: Seq<char>)
    ensures
        uses(name, ImportView { module: name, item: None }),
        uses(name, ImportView { module: replace_char(name, '-', '_'), item: None }),
        uses(name, ImportView { module: replace_char(name, '-', '.'), item: None }),
        uses(name, ImportView { module: name + seq!['.'] + inner, item: None }),
        uses(name, ImportView { module: name, item: Some(inner) }),
        spec_known_name(name) matches Some(known) ==> uses(
            name,
            ImportView { module: known, item: None },
        ),
        dbt_adapter_module(name) matches Some(m) ==> uses(name, ImportView { module: m, item: None }),
{
    let al = aliases(name);
    let plain = |m: Seq<char>| ImportView { module: m, item: None };
    assert(within(al[0], candidates(plain(name))[0]));
    assert(within(al[1], candidates(plain(replace_char(name, '-', '_')))[0]));
    assert(within(al[2], candidates(plain(replace_char(name, '-', '.')))[0]));
    let nested = name + seq!['.'] + inner;
    assert(nested.take(name.len() as int) =~= name);
    assert(within(al[0], candidates(plain(nested))[0]));
    assert(within(al[0], candidates(ImportView { module: name, item: Some(inner) })[0]));
    if let Some(known) = spec_known_name(name) {
        assert(al[3] == known);
        assert(within(al[3], candidates(plain(known))[0]));
    }
    if let Some(m) = dbt_adapter_module(name) {
        let k = al.len() - 1;
        assert(al[k] == m);
        assert(within(al[k], candidates(plain(m))[0]));
    }
}

} // verus!
