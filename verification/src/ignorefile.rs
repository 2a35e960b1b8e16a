//! The ignorefile: packages the user never wants reported.

use vstd::prelude::*;

use crate::infra::fs::FileSystem;
use crate::names::NameSet;
use crate::text::{chars_of, lines, newline_index, skip_space, string_of, strip_cr, trim_start, views};

verus! {

/// The ignorefile.
pub const IGNORE_FILE: &'static str = ".pyprojectudepsignore";

/// The ignorefile's earlier name, read when the ignorefile is absent.
pub const LEGACY_IGNORE_FILE: &'static str = ".poetryudepsignore";

/// A line that names a package: neither empty nor a `#` comment (after
/// leading whitespace).
pub open spec fn names_package(line: Seq<char>) -> bool {
    !(line.len() == 0 || (trim_start(line).len() > 0 && trim_start(line)[0] == '#'))
}

/// The package names an ignorefile lists: its lines, skipping empty lines
/// and comments.
pub open spec fn listed_names(contents: Seq<char>) -> Set<Seq<char>> {
    lines(contents).filter(|l: Seq<char>| names_package(l)).to_set()
}

/// The packages a project's ignorefile lists: [`IGNORE_FILE`], or
/// [`LEGACY_IGNORE_FILE`] when there is none; nothing when neither exists.
pub open spec fn ignored_in(fs: FileSystem) -> Set<Seq<char>> {
    match fs.read_spec(IGNORE_FILE@) {
        Some(c) => listed_names(c),
        None => match fs.read_spec(LEGACY_IGNORE_FILE@) {
            Some(c) => listed_names(c),
            None => Set::empty(),
        },
    }
}

/// Index of the first `'\n'` at or after `from`, or the length.
fn find_newline(chars: &Vec<char>, from: usize) -> (r: usize)
    requires
        from <= chars@.len(),
    ensures
        r == from + newline_index(chars@.skip(from as int)),
        r <= chars@.len(),
{
    let mut j = from;
    while j < chars.len() && chars[j] != '\n'
        invariant
            from <= j <= chars@.len(),
            newline_index(chars@.skip(from as int)) == (j - from) + newline_index(
                chars@.skip(j as int),
            ),
        decreases chars@.len() - j,
    {
        assert(chars@.skip(j as int).drop_first() =~= chars@.skip(j + 1));
        j = j + 1;
    }
    proof {
        if j < chars@.len() {
            assert(chars@.skip(j as int)[0] == '\n');
        }
    }
    j
}

/// The package names listed in ignorefile contents, ascending.
pub fn parse(contents: &str) -> (r: Vec<String>)
    ensures
        crate::text::strictly_sorted(views(r@)),
        views(r@).to_set() == listed_names(contents@),
{
    let chars = chars_of(contents);
    let n = chars.len();
    let ghost pred = |l: Seq<char>| names_package(l);
    let mut set = NameSet::new();
    let mut start: usize = 0;
    let ghost mut done: Seq<Seq<char>> = seq![];
    assert(chars@.skip(0) =~= chars@);
    while start < n
        invariant
            start <= n,
            n == chars@.len(),
            pred == (|l: Seq<char>| names_package(l)),
            set.wf(),
            lines(chars@) == done + lines(chars@.skip(start as int)),
            set.seq().to_set() == done.filter(pred).to_set(),
        decreases n - start,
    {
        let k = find_newline(&chars, start);
        let ghost rest = chars@.skip(start as int);
        let mut end = k;
        if k < n && end > start && chars[end - 1] == '\r' {
            end = end - 1;
        }
        proof {
            let seg = chars@.subrange(start as int, k as int);
            assert(rest.take(k - start) =~= seg);
            if k < n {
                assert(rest.skip(k - start + 1) =~= chars@.skip(k + 1));
            } else {
                assert(rest =~= seg);
            }
            let first = if k < n { strip_cr(seg) } else { seg };
            assert(lines(rest) == seq![first] + lines(chars@.skip(
                if k < n { k + 1 } else { n as int },
            ))) by {
                if k >= n {
                    assert(chars@.skip(n as int) =~= Seq::<char>::empty());
                }
            }
            assert(first =~= chars@.subrange(start as int, end as int));
        }
        let ghost line = chars@.subrange(start as int, end as int);
        let p = skip_space(&chars, start, end);
        let listed = !(end == start || (p < end && chars[p] == '#'));
        assert(listed == names_package(line));
        if listed {
            set.insert(string_of(&chars, start, end));
        }
        proof {
            let nd = done.push(line);
            reveal_with_fuel(Seq::filter, 1);
            assert(nd.drop_last() =~= done);
            if listed {
                done.filter(pred).lemma_push_to_set_commute(line);
            }
            assert(set.seq().to_set() == nd.filter(pred).to_set());
            assert(done + lines(rest) =~= nd + lines(rest).drop_first());
            done = nd;
        }
        start = if k < n { k + 1 } else { n };
    }
    proof {
        assert(chars@.skip(start as int) =~= Seq::<char>::empty());
        assert(done =~= lines(chars@));
    }
    set.to_vec()
}

/// The packages an ignorefile lists, given the contents of [`IGNORE_FILE`]
/// and of [`LEGACY_IGNORE_FILE`] where each could be read: the first when
/// there is one, else the legacy one, else nothing. Ascending.
pub fn choose_ignorefile(primary: Option<String>, legacy: Option<String>) -> (r: Vec<String>)
    ensures
        crate::text::strictly_sorted(views(r@)),
        views(r@).to_set() == match primary {
            Some(c) => listed_names(c@),
            None => match legacy {
                Some(c) => listed_names(c@),
                None => Set::<Seq<char>>::empty(),
            },
        },
{
    match primary {
        Some(contents) => parse(contents.as_str()),
        None => match legacy {
            Some(contents) => parse(contents.as_str()),
            None => {
                let r: Vec<String> = Vec::new();
                assert(views(r@).to_set() =~= Set::empty());
                r
            },
        },
    }
}

/// The packages listed in the project's ignorefile, ascending.
///
/// Empty lines and `#` comments are skipped. The ignorefile is
/// [`IGNORE_FILE`], or [`LEGACY_IGNORE_FILE`] when that one cannot be read;
/// when neither can be read, nothing is ignored.
pub fn ignored_packages(fs: &FileSystem) -> (r: Vec<String>)
    ensures
        crate::text::strictly_sorted(views(r@)),
        views(r@).to_set() == ignored_in(*fs),
{
    let primary = match fs.read_to_string_lossy(IGNORE_FILE) {
        Ok(contents) => Some(contents),
        Err(_) => None,
    };
    let legacy = match primary {
        Some(_) => None,
        None => match fs.read_to_string_lossy(LEGACY_IGNORE_FILE) {
            Ok(contents) => Some(contents),
            Err(_) => None,
        },
    };
    choose_ignorefile(primary, legacy)
}

} // verus!

verus! {

/// The text of lines, each followed by `'\n'`.
pub open spec fn join_lines(ls: Seq<Seq<char>>) -> Seq<char>
    decreases ls.len(),
{
    if ls.len() == 0 {
        seq![]
    } else {
        ls[0] + seq!['\n'] + join_lines(ls.drop_first())
    }
}

proof fn lemma_newline_index_of_line(l: Seq<char>, rest: Seq<char>)
    requires
        forall|k: int| 0 <= k < l.len() ==> l[k] != '\n',
    ensures
        newline_index(l + seq!['\n'] + rest) == l.len(),
    decreases l.len(),
{
    if l.len() > 0 {
        lemma_newline_index_of_line(l.drop_first(), rest);
        assert((l + seq!['\n'] + rest).drop_first() =~= l.drop_first() + seq!['\n'] + rest);
    }
}

proof fn lemma_lines_of_join(ls: Seq<Seq<char>>)
    requires
        forall|i: int, k: int| 0 <= i < ls.len() && 0 <= k < ls[i].len() ==> ls[i][k] != '\n',
        forall|i: int| 0 <= i < ls.len() ==> !(ls[i].len() > 0 && (#[trigger] ls[i]).last() == '\r'),
    ensures
        lines(join_lines(ls)) == ls,
    decreases ls.len(),
{
    if ls.len() > 0 {
        let l = ls[0];
        let rest = join_lines(ls.drop_first());
        let s = l + seq!['\n'] + rest;
        assert forall|k: int| 0 <= k < l.len() implies l[k] != '\n' by {
            assert(ls[0][k] != '\n');
        }
        lemma_newline_index_of_line(l, rest);
        assert(s.take(l.len() as int) =~= l);
        assert(s.skip(l.len() as int + 1) =~= rest);
        assert(strip_cr(l) == l);
        lemma_lines_of_join(ls.drop_first());
        assert(ls =~= seq![l] + ls.drop_first());
    } else {
        assert(join_lines(ls) =~= Seq::<char>::empty());
    }
}

/// Whatever mix of names, comments and blank lines an ignorefile holds,
/// one per line, parsing lists exactly its lines that name a package.
pub proof fn law_ignorefile_lists_exactly_its_name_lines(ls: Seq<Seq<char>>)
    requires
        forall|i: int, k: int| 0 <= i < ls.len() && 0 <= k < ls[i].len() ==> ls[i][k] != '\n',
        forall|i: int| 0 <= i < ls.len() ==> !(ls[i].len() > 0 && (#[trigger] ls[i]).last() == '\r'),
    ensures
        listed_names(join_lines(ls)) == ls.filter(|l: Seq<char>| names_package(l)).to_set(),
{
    lemma_lines_of_join(ls);
}

} // verus!
