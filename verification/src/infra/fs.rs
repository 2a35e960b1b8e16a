//! The filesystem as the analysis sees it: existence checks, reads, and
//! walks for Python files, over an in-memory file tree.

use vstd::prelude::*;

use crate::infra::paths::{
    is_python_path, is_relative, path_starts_with, paths_equal, python_path, relative,
    same_path, starts_with,
};

verus! {

/// One Python file found by a walk.
#[derive(Debug, Clone, PartialEq, Eq)]
pub struct PyFile {
    pub path: String,
    pub contents: String,
}

/// Which files a walk skips.
#[derive(Debug, Clone, Copy, PartialEq, Eq)]
pub enum WalkFilters {
    /// Respect gitignore files and skip hidden entries (project walks).
    Standard,
    /// Visit everything, including hidden directories like `.venv`.
    Unfiltered,
}

/// Why a read failed.
#[derive(Debug)]
pub enum FsError {
    /// No file is configured at this path.
    NotFound { path: String },
}

impl FsError {
    /// The message shown to the user.
    pub fn message(&self) -> (r: String)
        ensures
            match self {
                FsError::NotFound { path } => r@ == "Nulled FileSystem: no file configured at "@
                    + path@,
            },
    {
        match self {
            FsError::NotFound { path } => {
                let mut m = String::from_str("Nulled FileSystem: no file configured at ");
                m.append(path.as_str());
                m
            },
        }
    }
}

/// The texts of (path, contents) pairs.
pub open spec fn entry_views(v: Seq<(String, String)>) -> Seq<(Seq<char>, Seq<char>)> {
    v.map_values(|e: (String, String)| (e.0@, e.1@))
}

/// Index of the first entry whose path is `path`.
pub open spec fn find_path(t: Seq<(Seq<char>, Seq<char>)>, path: Seq<char>) -> Option<int>
    decreases t.len(),
{
    if t.len() == 0 {
        None
    } else if same_path(t[0].0, path) {
        Some(0)
    } else {
        match find_path(t.drop_first(), path) {
            Some(i) => Some(i + 1),
            None => None,
        }
    }
}

/// A file tree with one more file: a file at the same path is replaced.
pub open spec fn insert_file(t: Seq<(Seq<char>, Seq<char>)>, e: (Seq<char>, Seq<char>)) -> Seq<
    (Seq<char>, Seq<char>),
> {
    match find_path(t, e.0) {
        Some(i) => t.update(i, e),
        None => t.push(e),
    }
}

/// The file tree holding the given files; of several at one path, the last.
pub open spec fn file_table(input: Seq<(Seq<char>, Seq<char>)>) -> Seq<(Seq<char>, Seq<char>)>
    decreases input.len(),
{
    if input.len() == 0 {
        seq![]
    } else {
        insert_file(file_table(input.drop_last()), input.last())
    }
}

/// Whether a walk from `root` visits `path`. A walk from `.` (or `./`)
/// visits every relative path, mirroring how a real walk of the current
/// directory sees any relative file.
pub open spec fn under_root(path: Seq<char>, root: Seq<char>) -> bool {
    if same_path(root, seq!['.']) {
        is_relative(path)
    } else {
        path_starts_with(path, root)
    }
}

/// Whether a walk from `root` reports the file `e`.
pub open spec fn walked(e: (Seq<char>, Seq<char>), root: Seq<char>) -> bool {
    under_root(e.0, root) && is_python_path(e.0)
}

/// The files a walk from `root` reports, in the order of the tree.
pub open spec fn walk_result(t: Seq<(Seq<char>, Seq<char>)>, root: Seq<char>) -> Seq<
    (Seq<char>, Seq<char>),
> {
    t.filter(|e: (Seq<char>, Seq<char>)| walked(e, root))
}

/// The texts of a sequence of Python files.
pub open spec fn file_views(v: Seq<PyFile>) -> Seq<(Seq<char>, Seq<char>)> {
    v.map_values(|f: PyFile| (f.path@, f.contents@))
}

/// An in-memory file tree: paths and their contents.
#[derive(Debug)]
pub struct FileSystem {
    files: Vec<(String, String)>,
}

proof fn lemma_find_path_bounds(t: Seq<(Seq<char>, Seq<char>)>, path: Seq<char>)
    ensures
        find_path(t, path) matches Some(i) ==> 0 <= i < t.len() && same_path(t[i].0, path) && forall|
            j: int,
        |
            0 <= j < i ==> !same_path(#[trigger] t[j].0, path),
        find_path(t, path) is None ==> forall|j: int| 0 <= j < t.len() ==> !same_path(#[trigger] t[j].0, path),
    decreases t.len(),
{
    if t.len() > 0 {
        let d = t.drop_first();
        lemma_find_path_bounds(d, path);
        if !same_path(t[0].0, path) {
            assert forall|j: int| 0 <= j < t.len() && (find_path(d, path) is None || j < find_path(
                d,
                path,
            )->0 + 1) implies !same_path(#[trigger] t[j].0, path) by {
                if j > 0 {
                    assert(t[j] == d[j - 1]);
                }
            }
            if let Some(k) = find_path(d, path) {
                assert(t[k + 1] == d[k]);
            }
        }
    }
}

impl FileSystem {
    /// The files, each path once.
    pub closed spec fn files(&self) -> Seq<(Seq<char>, Seq<char>)> {
        entry_views(self.files@)
    }

    /// Whether a file or directory exists at `path`.
    pub open spec fn has(&self, path: Seq<char>) -> bool {
        exists|i: int|
            0 <= i < self.files().len() && (same_path(#[trigger] self.files()[i].0, path)
                || path_starts_with(self.files()[i].0, path))
    }

    /// The contents of the file at `path`, if there is one.
    pub open spec fn read_spec(&self, path: Seq<char>) -> Option<Seq<char>> {
        match find_path(self.files(), path) {
            Some(i) => Some(self.files()[i].1),
            None => None,
        }
    }

    /// Index of the file at `path`.
    fn position(&self, path: &str) -> (r: Option<usize>)
        ensures
            match r {
                Some(i) => find_path(self.files(), path@) == Some(i as int),
                None => find_path(self.files(), path@) is None,
            },
    {
        let ghost t = self.files();
        let mut i: usize = 0;
        assert(t.skip(0) =~= t);
        while i < self.files.len()
            invariant
                t == self.files(),
                i <= t.len(),
                find_path(t, path@) == match find_path(t.skip(i as int), path@) {
                    Some(k) => Some(k + i),
                    None => None::<int>,
                },
            decreases t.len() - i,
        {
            assert(t.skip(i as int)[0] == t[i as int]);
            assert(t.skip(i as int).drop_first() =~= t.skip(i + 1));
            if paths_equal(self.files[i].0.as_str(), path) {
                return Some(i);
            }
            i = i + 1;
        }
        None
    }

    /// A filesystem containing exactly the given files; of several files at
    /// one path, the last. `create_null(vec![])` is an empty filesystem.
    ///
    /// Walks send every `.py`/`.pyi` file under the walk root and
    /// deliberately do not emulate gitignore semantics.
    pub fn create_null(files: Vec<(String, String)>) -> (r: FileSystem)
        ensures
            r.files() == file_table(entry_views(files@)),
    {
        let mut fs = FileSystem { files: Vec::new() };
        let ghost input = entry_views(files@);
        let n = files.len();
        let mut k: usize = 0;
        assert(fs.files() =~= file_table(input.take(0)));
        while k < n
            invariant
                k <= n,
                n == files@.len(),
                input == entry_views(files@),
                fs.files() == file_table(input.take(k as int)),
            decreases n - k,
        {
            let e = (files[k].0.clone(), files[k].1.clone());
            let ghost before = fs.files();
            proof {
                lemma_find_path_bounds(before, e.0@);
            }
            match fs.position(e.0.as_str()) {
                Some(i) => {
                    fs.files.set(i, e);
                    assert(fs.files() =~= before.update(i as int, (e.0@, e.1@)));
                },
                None => {
                    fs.files.push(e);
                    assert(fs.files() =~= before.push((e.0@, e.1@)));
                },
            }
            proof {
                let t = input.take(k + 1);
                assert(t.drop_last() =~= input.take(k as int));
                assert(t.last() == (files@[k as int].0@, files@[k as int].1@));
            }
            k = k + 1;
        }
        assert(input.take(n as int) =~= input);
        fs
    }

    /// Whether a file or directory exists at `path`: a file is there, or
    /// some file lies under it.
    pub fn path_exists(&self, path: &str) -> (r: bool)
        ensures
            r == self.has(path@),
    {
        let mut i: usize = 0;
        while i < self.files.len()
            invariant
                i <= self.files@.len(),
                forall|j: int|
                    0 <= j < i ==> !(same_path(#[trigger] self.files()[j].0, path@)
                        || path_starts_with(self.files()[j].0, path@)),
            decreases self.files@.len() - i,
        {
            let p = self.files[i].0.as_str();
            if paths_equal(p, path) || starts_with(p, path) {
                assert(same_path(self.files()[i as int].0, path@) || path_starts_with(
                    self.files()[i as int].0,
                    path@,
                ));
                return true;
            }
            i = i + 1;
        }
        false
    }

    /// The contents of the file at `path`.
    pub fn read_to_string_lossy(&self, path: &str) -> (r: Result<String, FsError>)
        ensures
            match find_path(self.files(), path@) {
                Some(i) => r matches Ok(c) && c@ == self.files()[i].1,
                None => r matches Err(FsError::NotFound { path: p }) && p@ == path@,
            },
    {
        proof {
            lemma_find_path_bounds(self.files(), path@);
        }
        match self.position(path) {
            Some(i) => Ok(self.files[i].1.clone()),
            None => Err(FsError::NotFound { path: String::from_str(path) }),
        }
    }

    /// The Python files (`.py`/`.pyi`) under `root`, in the order of the
    /// tree.
    pub fn walk_python_files(&self, root: &str, filters: WalkFilters) -> (r: Vec<PyFile>)
        ensures
            file_views(r@) == walk_result(self.files(), root@),
    {
        let ghost t = self.files();
        let ghost pred = |e: (Seq<char>, Seq<char>)| walked(e, root@);
        let whole = paths_equal(root, ".");
        proof {
            reveal_strlit(".");
            assert("."@ =~= seq!['.']);
        }
        let mut r: Vec<PyFile> = Vec::new();
        let mut i: usize = 0;
        assert(t.take(0).filter(pred) =~= seq![]);
        while i < self.files.len()
            invariant
                t == self.files(),
                i <= t.len(),
                whole == same_path(root@, seq!['.']),
                pred == (|e: (Seq<char>, Seq<char>)| walked(e, root@)),
                file_views(r@) == t.take(i as int).filter(pred),
            decreases t.len() - i,
        {
            let path = self.files[i].0.as_str();
            let inside = if whole {
                relative(path)
            } else {
                starts_with(path, root)
            };
            let take = inside && python_path(path);
            let ghost before = r@;
            if take {
                r.push(PyFile { path: self.files[i].0.clone(), contents: self.files[i].1.clone() });
            }
            proof {
                let s = t.take(i + 1);
                assert(s.drop_last() =~= t.take(i as int));
                assert(s.last() == t[i as int]);
                assert(take == pred(t[i as int]));
                reveal_with_fuel(Seq::filter, 1);
                assert(file_views(r@) =~= s.filter(pred));
            }
            i = i + 1;
        }
        assert(t.take(i as int) =~= t);
        r
    }
}

} // verus!

verus! {

/// The contents of the last of the given files at `path`.
pub open spec fn last_file(input: Seq<(Seq<char>, Seq<char>)>, path: Seq<char>) -> Option<Seq<char>>
    decreases input.len(),
{
    if input.len() == 0 {
        None
    } else if same_path(input.last().0, path) {
        Some(input.last().1)
    } else {
        last_file(input.drop_last(), path)
    }
}

/// The contents at `path` in a file tree.
pub open spec fn read_table(t: Seq<(Seq<char>, Seq<char>)>, path: Seq<char>) -> Option<Seq<char>> {
    match find_path(t, path) {
        Some(i) => Some(t[i].1),
        None => None,
    }
}

proof fn lemma_find_path_first(t: Seq<(Seq<char>, Seq<char>)>, path: Seq<char>, k: int)
    requires
        0 <= k < t.len(),
        same_path(t[k].0, path),
        forall|j: int| 0 <= j < k ==> !same_path(#[trigger] t[j].0, path),
    ensures
        find_path(t, path) == Some(k),
{
    lemma_find_path_bounds(t, path);
    if let Some(i) = find_path(t, path) {
        if i > k {
            assert(!same_path(t[k].0, path));
        }
    }
}

proof fn lemma_insert_file_reads(t: Seq<(Seq<char>, Seq<char>)>, e: (Seq<char>, Seq<char>), path: Seq<char>)
    ensures
        read_table(insert_file(t, e), path) == if same_path(e.0, path) {
            Some(e.1)
        } else {
            read_table(t, path)
        },
{
    let u = insert_file(t, e);
    lemma_find_path_bounds(t, e.0);
    lemma_find_path_bounds(t, path);
    lemma_find_path_bounds(u, path);
    match find_path(t, e.0) {
        Some(i) => {
            assert(u == t.update(i, e));
            if same_path(e.0, path) {
                assert forall|j: int| 0 <= j < i implies !same_path(#[trigger] u[j].0, path) by {
                    assert(u[j] == t[j]);
                    assert(!same_path(t[j].0, e.0));
                }
                lemma_find_path_first(u, path, i);
            } else {
                match find_path(t, path) {
                    Some(k) => {
                        assert(k != i);
                        assert forall|j: int| 0 <= j < k implies !same_path(#[trigger] u[j].0, path) by {
                            if j != i {
                                assert(u[j] == t[j]);
                            }
                        }
                        lemma_find_path_first(u, path, k);
                    },
                    None => {
                        if let Some(k) = find_path(u, path) {
                            if k != i {
                                assert(u[k] == t[k]);
                            }
                        }
                    },
                }
            }
        },
        None => {
            assert(u == t.push(e));
            if same_path(e.0, path) {
                assert forall|j: int| 0 <= j < t.len() implies !same_path(#[trigger] u[j].0, path) by {
                    assert(u[j] == t[j]);
                    assert(!same_path(t[j].0, e.0));
                }
                lemma_find_path_first(u, path, t.len() as int);
            } else {
                match find_path(t, path) {
                    Some(k) => {
                        assert forall|j: int| 0 <= j < k implies !same_path(#[trigger] u[j].0, path) by {
                            assert(u[j] == t[j]);
                        }
                        assert(u[k] == t[k]);
                        lemma_find_path_first(u, path, k);
                    },
                    None => {
                        if let Some(k) = find_path(u, path) {
                            if k < t.len() {
                                assert(u[k] == t[k]);
                            }
                        }
                    },
                }
            }
        },
    }
}

/// The file tree built from `input` holds, at each path, the last file
/// given there.
pub proof fn lemma_file_table_reads(input: Seq<(Seq<char>, Seq<char>)>, path: Seq<char>)
    ensures
        read_table(file_table(input), path) == last_file(input, path),
    decreases input.len(),
{
    if input.len() > 0 {
        lemma_file_table_reads(input.drop_last(), path);
        lemma_insert_file_reads(file_table(input.drop_last()), input.last(), path);
    }
}

/// A filesystem made from files at different paths reads back each file's
/// contents at its path, and has no file at any other path.
pub proof fn law_configured_files_read_back(fs: FileSystem, input: Seq<(Seq<char>, Seq<char>)>)
    requires
        fs.files() == file_table(input),
        forall|i: int, j: int|
            0 <= i < input.len() && 0 <= j < input.len() && i != j ==> !same_path(
                #[trigger] input[i].0,
                #[trigger] input[j].0,
            ),
    ensures
        forall|i: int| 0 <= i < input.len() ==> fs.read_spec(#[trigger] input[i].0) == Some(input[i].1),
        forall|p: Seq<char>|
            (forall|i: int| 0 <= i < input.len() ==> !same_path(#[trigger] input[i].0, p))
                ==> fs.read_spec(p) is None,
{
    assert forall|i: int| 0 <= i < input.len() implies fs.read_spec(#[trigger] input[i].0) == Some(
        input[i].1,
    ) by {
        lemma_file_table_reads(input, input[i].0);
        lemma_last_file_distinct(input, i);
    }
    assert forall|p: Seq<char>|
        (forall|i: int| 0 <= i < input.len() ==> !same_path(#[trigger] input[i].0, p)) implies fs.read_spec(
        p,
    ) is None by {
        lemma_file_table_reads(input, p);
        lemma_last_file_absent(input, p);
    }
}

proof fn lemma_last_file_distinct(input: Seq<(Seq<char>, Seq<char>)>, i: int)
    requires
        0 <= i < input.len(),
        forall|a: int, b: int|
            0 <= a < input.len() && 0 <= b < input.len() && a != b ==> !same_path(
                #[trigger] input[a].0,
                #[trigger] input[b].0,
            ),
    ensures
        last_file(input, input[i].0) == Some(input[i].1),
    decreases input.len(),
{
    let n = input.len() - 1;
    if i < n {
        let d = input.drop_last();
        assert(!same_path(input[n].0, input[i].0));
        assert forall|a: int, b: int|
            0 <= a < d.len() && 0 <= b < d.len() && a != b implies !same_path(
                #[trigger] d[a].0,
                #[trigger] d[b].0,
            ) by {
            assert(!same_path(input[a].0, input[b].0));
        }
        lemma_last_file_distinct(d, i);
        assert(d[i] == input[i]);
    }
}

proof fn lemma_last_file_absent(input: Seq<(Seq<char>, Seq<char>)>, p: Seq<char>)
    requires
        forall|i: int| 0 <= i < input.len() ==> !same_path(#[trigger] input[i].0, p),
    ensures
        last_file(input, p) is None,
    decreases input.len(),
{
    if input.len() > 0 {
        let d = input.drop_last();
        assert(!same_path(input[input.len() - 1].0, p));
        assert forall|i: int| 0 <= i < d.len() implies !same_path(#[trigger] d[i].0, p) by {
            assert(d[i] == input[i]);
        }
        lemma_last_file_absent(d, p);
    }
}

/// A filesystem made from no files has nothing at any path: every check
/// for existence fails, every read fails, and every walk finds nothing.
pub proof fn law_empty_filesystem_has_nothing(fs: FileSystem)
    requires
        fs.files() == file_table(Seq::<(Seq<char>, Seq<char>)>::empty()),
    ensures
        forall|p: Seq<char>| !fs.has(p) && fs.read_spec(p) is None,
        forall|root: Seq<char>| #[trigger] walk_result(fs.files(), root) == Seq::<(Seq<char>, Seq<char>)>::empty(),
{
    assert forall|root: Seq<char>| #[trigger] walk_result(fs.files(), root) == Seq::<(Seq<char>, Seq<char>)>::empty() by {
        assert(fs.files().len() == 0);
        reveal_with_fuel(Seq::filter, 1);
        assert(walk_result(fs.files(), root) =~= Seq::<(Seq<char>, Seq<char>)>::empty());
    }
}

} // verus!
