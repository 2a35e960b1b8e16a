//! Unix path semantics on `/`-separated texts, as `std::path::Path` defines
//! them: comparison by components, prefixes by components, relative paths,
//! and file names.

use vstd::prelude::*;

use crate::text::chars_of;

verus! {

/// The `/`-separated segments of a path, empty ones included.
pub open spec fn segments(p: Seq<char>) -> Seq<Seq<char>>
    decreases p.len(),
{
    if p.len() == 0 {
        seq![seq![]]
    } else {
        let prev = segments(p.drop_last());
        if p.last() == '/' {
            prev.push(seq![])
        } else {
            prev.update(prev.len() - 1, prev.last().push(p.last()))
        }
    }
}

/// A segment that names a component: not empty and not `.`.
pub open spec fn is_body_segment(s: Seq<char>) -> bool {
    s.len() > 0 && s != seq!['.']
}

/// The root component.
pub open spec fn root_dir() -> Seq<char> {
    seq!['/']
}

/// The current-directory component.
pub open spec fn cur_dir() -> Seq<char> {
    seq!['.']
}

/// The component a path starts with before its body: the root for an
/// absolute path, `.` for a path that starts with a `.` segment.
pub open spec fn start_components(p: Seq<char>) -> Seq<Seq<char>> {
    if p.len() > 0 && p[0] == '/' {
        seq![root_dir()]
    } else if p.len() > 0 && p[0] == '.' && (p.len() == 1 || p[1] == '/') {
        seq![cur_dir()]
    } else {
        seq![]
    }
}

/// The components of a path as `Path::components` yields them on Unix: the
/// root or a leading `.`, then every segment that is neither empty nor `.`.
pub open spec fn components(p: Seq<char>) -> Seq<Seq<char>> {
    start_components(p) + segments(p).filter(|s: Seq<char>| is_body_segment(s))
}

/// `Path` equality: the same components.
pub open spec fn same_path(a: Seq<char>, b: Seq<char>) -> bool {
    components(a) == components(b)
}

/// `Path::starts_with`: the components of `base` begin the components of `p`.
pub open spec fn path_starts_with(p: Seq<char>, base: Seq<char>) -> bool {
    components(base).is_prefix_of(components(p))
}

/// `Path::is_relative`: the path has no root.
pub open spec fn is_relative(p: Seq<char>) -> bool {
    !(p.len() > 0 && p[0] == '/')
}

/// `Path::file_name`: the last component, when it is a name rather than the
/// root, `.` or `..`.
pub open spec fn file_name(p: Seq<char>) -> Option<Seq<char>> {
    let c = components(p);
    if c.len() > 0 && c.last() != root_dir() && c.last() != cur_dir() && c.last() != seq!['.', '.'] {
        Some(c.last())
    } else {
        None
    }
}

/// A file name whose extension (the text after its last `.`, where that dot
/// is not its first character) is `py` or `pyi`.
pub open spec fn is_python_name(f: Seq<char>) -> bool {
    ||| (f.len() > 3 && f.skip(f.len() - 3) == seq!['.', 'p', 'y'])
    ||| (f.len() > 4 && f.skip(f.len() - 4) == seq!['.', 'p', 'y', 'i'])
}

/// A path whose file name has the extension `py` or `pyi`.
pub open spec fn is_python_path(p: Seq<char>) -> bool {
    file_name(p) matches Some(f) && is_python_name(f)
}

/// The texts of a vector of character vectors.
pub open spec fn part_views(v: Seq<Vec<char>>) -> Seq<Seq<char>> {
    v.map_values(|c: Vec<char>| c@)
}

proof fn lemma_segments_nonempty(p: Seq<char>)
    ensures
        segments(p).len() >= 1,
    decreases p.len(),
{
    if p.len() > 0 {
        lemma_segments_nonempty(p.drop_last());
    }
}

/// The components of a path.
pub fn path_components(path: &str) -> (r: Vec<Vec<char>>)
    ensures
        part_views(r@) == components(path@),
{
    let p = chars_of(path);
    let n = p.len();
    let mut r: Vec<Vec<char>> = Vec::new();
    if n > 0 && p[0] == '/' {
        let mut root: Vec<char> = Vec::new();
        root.push('/');
        r.push(root);
    } else if n > 0 && p[0] == '.' && (n == 1 || p[1] == '/') {
        let mut dot: Vec<char> = Vec::new();
        dot.push('.');
        r.push(dot);
    }
    let ghost start = part_views(r@);
    assert(start =~= start_components(p@));
    let mut cur: Vec<char> = Vec::new();
    let mut i: usize = 0;
    let ghost pred = |s: Seq<char>| is_body_segment(s);
    assert(p@.take(0) =~= Seq::<char>::empty());
    assert(segments(p@.take(0)).drop_last() =~= Seq::<Seq<char>>::empty());
    while i < n
        invariant
            n == p@.len(),
            i <= n,
            pred == (|s: Seq<char>| is_body_segment(s)),
            segments(p@.take(i as int)).len() >= 1,
            cur@ == segments(p@.take(i as int)).last(),
            part_views(r@) == start + segments(p@.take(i as int)).drop_last().filter(pred),
        decreases n - i,
    {
        let ghost prev = segments(p@.take(i as int));
        let ghost before = part_views(r@);
        let c = p[i];
        proof {
            assert(p@.take(i + 1).drop_last() =~= p@.take(i as int));
            assert(p@.take(i + 1).last() == c);
        }
        if c == '/' {
            let body = cur.len() > 0 && !(cur.len() == 1 && cur[0] == '.');
            proof {
                assert(body == is_body_segment(cur@)) by {
                    if cur@.len() == 1 && cur@[0] == '.' {
                        assert(cur@ =~= seq!['.']);
                    }
                }
                let next = prev.push(seq![]);
                assert(segments(p@.take(i + 1)) == next);
                assert(next.drop_last() =~= prev);
                assert(prev =~= prev.drop_last().push(prev.last()));
                reveal_with_fuel(Seq::filter, 1);
            }
            let ghost done = cur@;
            if body {
                r.push(cur);
                assert(part_views(r@) =~= before.push(done));
            }
            cur = Vec::new();
            proof {
                assert(part_views(r@) =~= start + prev.filter(pred));
                assert(cur@ =~= seq![]);
            }
        } else {
            cur.push(c);
            proof {
                lemma_segments_nonempty(p@.take(i as int));
                let next = prev.update(prev.len() - 1, prev.last().push(c));
                assert(segments(p@.take(i + 1)) == next);
                assert(next.drop_last() =~= prev.drop_last());
            }
        }
        i = i + 1;
        proof {
            lemma_segments_nonempty(p@.take(i as int));
        }
    }
    proof {
        assert(p@.take(n as int) =~= p@);
        let segs = segments(p@);
        assert(segs =~= segs.drop_last().push(segs.last()));
        reveal_with_fuel(Seq::filter, 1);
    }
    let body = cur.len() > 0 && !(cur.len() == 1 && cur[0] == '.');
    proof {
        assert(body == is_body_segment(cur@)) by {
            if cur@.len() == 1 && cur@[0] == '.' {
                assert(cur@ =~= seq!['.']);
            }
        }
    }
    let ghost before = part_views(r@);
    let ghost done = cur@;
    if body {
        r.push(cur);
        assert(part_views(r@) =~= before.push(done));
    }
    assert(part_views(r@) =~= start + segments(p@).filter(pred));
    r
}

/// Whether two component lists are equal.
fn parts_eq(a: &Vec<Vec<char>>, b: &Vec<Vec<char>>) -> (r: bool)
    ensures
        r == (part_views(a@) == part_views(b@)),
{
    if a.len() != b.len() {
        assert(part_views(a@).len() != part_views(b@).len());
        return false;
    }
    let mut i: usize = 0;
    while i < a.len()
        invariant
            a@.len() == b@.len(),
            i <= a@.len(),
            forall|j: int| 0 <= j < i ==> part_views(a@)[j] == part_views(b@)[j],
        decreases a@.len() - i,
    {
        if !crate::text::chars_eq(&a[i], &b[i]) {
            assert(part_views(a@)[i as int] != part_views(b@)[i as int]);
            return false;
        }
        i = i + 1;
    }
    assert(part_views(a@) =~= part_views(b@));
    true
}

/// Whether the components `base` begin the components `p`.
fn parts_prefix(p: &Vec<Vec<char>>, base: &Vec<Vec<char>>) -> (r: bool)
    ensures
        r == part_views(base@).is_prefix_of(part_views(p@)),
{
    if base.len() > p.len() {
        return false;
    }
    let mut i: usize = 0;
    while i < base.len()
        invariant
            base@.len() <= p@.len(),
            i <= base@.len(),
            forall|j: int| 0 <= j < i ==> part_views(base@)[j] == part_views(p@)[j],
        decreases base@.len() - i,
    {
        if !crate::text::chars_eq(&base[i], &p[i]) {
            assert(part_views(base@)[i as int] != part_views(p@)[i as int]);
            return false;
        }
        i = i + 1;
    }
    assert(part_views(base@) =~= part_views(p@).take(base@.len() as int));
    true
}

/// `Path` equality.
pub fn paths_equal(a: &str, b: &str) -> (r: bool)
    ensures
        r == same_path(a@, b@),
{
    let x = path_components(a);
    let y = path_components(b);
    parts_eq(&x, &y)
}

/// `Path::starts_with`.
pub fn starts_with(p: &str, base: &str) -> (r: bool)
    ensures
        r == path_starts_with(p@, base@),
{
    let x = path_components(p);
    let y = path_components(base);
    parts_prefix(&x, &y)
}

/// `Path::is_relative`.
pub fn relative(p: &str) -> (r: bool)
    ensures
        r == is_relative(p@),
{
    let chars = chars_of(p);
    !(chars.len() > 0 && chars[0] == '/')
}

/// Whether the path's extension is `py` or `pyi`.
pub fn python_path(p: &str) -> (r: bool)
    ensures
        r == is_python_path(p@),
{
    let parts = path_components(p);
    let k = parts.len();
    if k == 0 {
        return false;
    }
    let last = &parts[k - 1];
    let m = last.len();
    let special = (m == 1 && (last[0] == '/' || last[0] == '.')) || (m == 2 && last[0] == '.'
        && last[1] == '.');
    proof {
        let l = part_views(parts@).last();
        assert(l == last@);
        assert(special == (l == root_dir() || l == cur_dir() || l == seq!['.', '.'])) by {
            if m == 1 && last@[0] == '/' {
                assert(l =~= root_dir());
            }
            if m == 1 && last@[0] == '.' {
                assert(l =~= cur_dir());
            }
            if m == 2 && last@[0] == '.' && last@[1] == '.' {
                assert(l =~= seq!['.', '.']);
            }
        }
    }
    if special {
        return false;
    }
    let py = m > 3 && last[m - 3] == '.' && last[m - 2] == 'p' && last[m - 1] == 'y';
    let pyi = m > 4 && last[m - 4] == '.' && last[m - 3] == 'p' && last[m - 2] == 'y' && last[m
        - 1] == 'i';
    proof {
        if m > 3 {
            let t = last@.skip(m - 3);
            assert(py == (t == seq!['.', 'p', 'y'])) by {
                if py {
                    assert(t =~= seq!['.', 'p', 'y']);
                }
                if t == seq!['.', 'p', 'y'] {
                    assert(t[0] == last@[m - 3] && t[1] == last@[m - 2] && t[2] == last@[m - 1]);
                }
            }
        }
        if m > 4 {
            let t = last@.skip(m - 4);
            assert(pyi == (t == seq!['.', 'p', 'y', 'i'])) by {
                if pyi {
                    assert(t =~= seq!['.', 'p', 'y', 'i']);
                }
                if t == seq!['.', 'p', 'y', 'i'] {
                    assert(t[0] == last@[m - 4] && t[1] == last@[m - 3] && t[2] == last@[m - 2]
                        && t[3] == last@[m - 1]);
                }
            }
        }
    }
    py || pyi
}

} // verus!
