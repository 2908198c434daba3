//! Which files of a project tree are analysed: Python files in the included
//! directories, below no excluded directory, and within the configured size.

use vstd::prelude::*;
use crate::config::{Config, file_size_bytes, file_size_spec};
use crate::text::{chars_of, concat2, join_seq};

verus! {

/// Chooses the files of a project tree to analyse.
pub struct FileScanner {
    config: Config,
}

/// `name` fits the pattern `p`, in which `*` stands for any run of characters and every
/// other character for itself.
pub open spec fn glob_match(p: Seq<char>, name: Seq<char>) -> bool
    decreases p.len() + name.len(),
{
    if p.len() == 0 {
        name.len() == 0
    } else if p[0] == '*' {
        glob_match(p.drop_first(), name) || (name.len() > 0 && glob_match(p, name.drop_first()))
    } else {
        name.len() > 0 && name[0] == p[0] && glob_match(p.drop_first(), name.drop_first())
    }
}

/// Some directory among `dirs` is named by one of the exclude `patterns`.
pub open spec fn excluded_dirs(patterns: Seq<Seq<char>>, dirs: Seq<Seq<char>>) -> bool {
    exists|i: int, k: int|
        0 <= i < dirs.len() && 0 <= k < patterns.len() && #[trigger] glob_match(patterns[k], dirs[i])
}

/// `e` without the `/` characters that end it.
pub open spec fn without_trailing_slashes(e: Seq<char>) -> Seq<char>
    decreases e.len(),
{
    if e.len() > 0 && e.last() == '/' {
        without_trailing_slashes(e.drop_last())
    } else {
        e
    }
}

/// The directory path that the include entry `e` names below the root, written with
/// `/`: `e` without a closing `/`, and empty for `.`, the root itself.
pub open spec fn include_path(e: Seq<char>) -> Seq<char> {
    let t = without_trailing_slashes(e);
    if t.len() == 1 && t[0] == '.' {
        Seq::empty()
    } else {
        t
    }
}

/// The directories `dirs` (outermost first) lie in the directory named by the include
/// entry `e`: some leading run of them, joined by `/`, is that directory's path.
pub open spec fn under_include(e: Seq<char>, dirs: Seq<Seq<char>>) -> bool {
    exists|k: int| 0 <= k <= dirs.len() && #[trigger] join_seq(dirs.take(k), seq!['/']) == include_path(e)
}

/// A file name whose extension (what follows its last `.`, when something comes before
/// that `.`) is `py`.
pub open spec fn is_python_name(name: Seq<char>) -> bool {
    name.len() > 3 && name[name.len() - 3] == '.' && name[name.len() - 2] == 'p' && name[name.len() - 1] == 'y'
}

/// Whether the file reached from the root through `components` (its directories,
/// outermost first, then its name), of `size` bytes, is analysed under `config`: it is
/// a Python file, no directory on its way is excluded, it lies in an included directory,
/// and it is no larger than `scan.max_file_size` when that setting is a valid size.
pub open spec fn collects_spec(config: Config, components: Seq<Seq<char>>, size: u64) -> bool {
    let dirs = components.drop_last();
    &&& components.len() > 0
    &&& is_python_name(components.last())
    &&& !excluded_dirs(config.scan.exclude.deep_view(), dirs)
    &&& exists|i: int|
        0 <= i < config.scan.include_paths@.len() && #[trigger] under_include(config.scan.include_paths@[i]@, dirs)
    &&& (file_size_spec(config.scan.max_file_size@) matches Ok(limit) ==> size <= limit)
}

/// Whether `name` fits `p` from the positions `i` and `j` on.
fn glob_from(p: &Vec<char>, name: &Vec<char>, i: usize, j: usize) -> (r: bool)
    requires
        i <= p@.len(),
        j <= name@.len(),
    ensures
        r == glob_match(p@.skip(i as int), name@.skip(j as int)),
    decreases p@.len() - i + name@.len() - j,
{
    let ghost ps = p@.skip(i as int);
    let ghost ns = name@.skip(j as int);
    if i < p.len() {
        assert(ps.drop_first() =~= p@.skip(i + 1));
        assert(ps[0] == p@[i as int]);
    }
    if j < name.len() {
        assert(ns.drop_first() =~= name@.skip(j + 1));
        assert(ns[0] == name@[j as int]);
    }
    if i == p.len() {
        j == name.len()
    } else if p[i] == '*' {
        if glob_from(p, name, i + 1, j) {
            true
        } else if j < name.len() {
            glob_from(p, name, i, j + 1)
        } else {
            false
        }
    } else {
        j < name.len() && name[j] == p[i] && glob_from(p, name, i + 1, j + 1)
    }
}

/// Whether `name` fits the pattern `p`.
fn glob_matches(p: &str, name: &str) -> (r: bool)
    ensures
        r == glob_match(p@, name@),
{
    let pc = chars_of(p);
    let nc = chars_of(name);
    assert(pc@.skip(0) =~= pc@);
    assert(nc@.skip(0) =~= nc@);
    glob_from(&pc, &nc, 0, 0)
}

/// Whether two character lists are equal.
fn chars_equal(a: &Vec<char>, b: &Vec<char>) -> (r: bool)
    ensures
        r == (a@ == b@),
{
    if a.len() != b.len() {
        return false;
    }
    let mut i: usize = 0;
    while i < a.len()
        invariant
            a@.len() == b@.len(),
            i <= a@.len(),
            forall|k: int| 0 <= k < i ==> a@[k] == b@[k],
        decreases a@.len() - i,
    {
        if a[i] != b[i] {
            return false;
        }
        i = i + 1;
    }
    assert(a@ =~= b@);
    true
}

/// The characters of `include_path(e)`.
fn include_path_chars(e: &str) -> (r: Vec<char>)
    ensures
        r@ == include_path(e@),
{
    let cs = chars_of(e);
    let mut k: usize = cs.len();
    assert(cs@.take(k as int) =~= cs@);
    while k > 0 && cs[k - 1] == '/'
        invariant
            k <= cs@.len(),
            without_trailing_slashes(cs@) == without_trailing_slashes(cs@.take(k as int)),
        decreases k,
    {
        assert(cs@.take(k as int).drop_last() =~= cs@.take(k - 1));
        k = k - 1;
    }
    let mut t: Vec<char> = Vec::new();
    let mut i: usize = 0;
    while i < k
        invariant
            k <= cs@.len(),
            i <= k,
            t@ == cs@.take(i as int),
        decreases k - i,
    {
        t.push(cs[i]);
        i = i + 1;
        assert(t@ =~= cs@.take(i as int));
    }
    assert(without_trailing_slashes(cs@.take(k as int)) == cs@.take(k as int));
    if t.len() == 1 && t[0] == '.' {
        Vec::new()
    } else {
        t
    }
}

impl FileScanner {
    /// A scanner that follows `config`.
    pub fn new(config: Config) -> (s: Self)
        ensures
            s.spec_config() == config,
    {
        FileScanner { config }
    }

    /// The configuration the scanner follows.
    pub closed spec fn spec_config(self) -> Config {
        self.config
    }

    /// Whether some exclude pattern names the directory `name`.
    pub fn is_excluded(&self, name: &str) -> (r: bool)
        ensures
            r == exists|k: int|
                0 <= k < self.spec_config().scan.exclude@.len()
                    && #[trigger] glob_match(self.spec_config().scan.exclude.deep_view()[k], name@),
    {
        let pats = &self.config.scan.exclude;
        let n = pats.len();
        let mut k: usize = 0;
        while k < n
            invariant
                n == pats@.len(),
                k <= n,
                pats == &self.config.scan.exclude,
                forall|j: int| 0 <= j < k ==> !glob_match(#[trigger] pats.deep_view()[j], name@),
            decreases n - k,
        {
            assert(pats.deep_view()[k as int] == pats@[k as int]@);
            if glob_matches(pats[k].as_str(), name) {
                assert(glob_match(self.spec_config().scan.exclude.deep_view()[k as int], name@));
                return true;
            }
            k = k + 1;
        }
        false
    }

    /// Whether the directories `dirs` (outermost first) lie in the directory named by the
    /// include entry `e`.
    fn in_include(&self, e: &str, dirs: &Vec<String>, n: usize) -> (r: bool)
        requires
            n <= dirs@.len(),
        ensures
            r == under_include(e@, dirs.deep_view().take(n as int)),
    {
        let ghost ds = dirs.deep_view().take(n as int);
        let want = include_path_chars(e);
        let mut joined: Vec<char> = Vec::new();
        let mut k: usize = 0;
        assert(ds.take(0) =~= Seq::<Seq<char>>::empty());
        loop
            invariant
                n <= dirs@.len(),
                ds == dirs.deep_view().take(n as int),
                k <= n,
                want@ == include_path(e@),
                joined@ == join_seq(ds.take(k as int), seq!['/']),
                forall|m: int| 0 <= m < k ==> #[trigger] join_seq(ds.take(m), seq!['/']) != include_path(e@),
            decreases n - k,
        {
            if chars_equal(&joined, &want) {
                return true;
            }
            if k == n {
                assert forall|m: int| 0 <= m <= ds.len() implies #[trigger] join_seq(ds.take(m), seq!['/'])
                    != include_path(e@) by {
                    if m == k {
                    }
                }
                return false;
            }
            let d = chars_of(dirs[k].as_str());
            assert(dirs.deep_view()[k as int] == dirs@[k as int]@);
            assert(ds.take(k + 1).drop_last() =~= ds.take(k as int));
            assert(ds.take(k + 1).last() == d@);
            if k > 0 {
                joined.push('/');
            }
            let mut i: usize = 0;
            let ghost before = joined@;
            while i < d.len()
                invariant
                    i <= d@.len(),
                    joined@ == before + d@.take(i as int),
                decreases d@.len() - i,
            {
                joined.push(d[i]);
                i = i + 1;
                assert(joined@ =~= before + d@.take(i as int));
            }
            assert(d@.take(d@.len() as int) =~= d@);
            if k == 0 {
                assert(ds.take(1) =~= seq![d@]);
                assert(joined@ =~= d@);
            } else {
                assert(joined@ =~= join_seq(ds.take(k as int), seq!['/']) + seq!['/'] + d@);
            }
            k = k + 1;
        }
    }

    /// Whether the file reached from the root through `components` (its directories,
    /// outermost first, then its name), of `size` bytes, is analysed: a Python file in an
    /// included directory, below no excluded directory, and no larger than the configured
    /// maximum file size when that setting is valid.
    pub fn collects_file(&self, components: &Vec<String>, size: u64) -> (r: bool)
        ensures
            r == collects_spec(self.spec_config(), components.deep_view(), size),
    {
        let ghost comps = components.deep_view();
        let n = components.len();
        if n == 0 {
            return false;
        }
        let ghost dirs = comps.drop_last();
        assert(dirs =~= components.deep_view().take(n - 1));
        let name = chars_of(components[n - 1].as_str());
        assert(comps.last() == components@[n - 1]@);
        if !(name.len() > 3 && name[name.len() - 3] == '.' && name[name.len() - 2] == 'p' && name[name.len() - 1] == 'y') {
            return false;
        }
        let mut i: usize = 0;
        while i < n - 1
            invariant
                n == components@.len(),
                n > 0,
                i <= n - 1,
                dirs == comps.drop_last(),
                comps == components.deep_view(),
                forall|a: int, k: int|
                    0 <= a < i && 0 <= k < self.spec_config().scan.exclude@.len()
                        ==> !#[trigger] glob_match(self.spec_config().scan.exclude.deep_view()[k], dirs[a]),
            decreases n - 1 - i,
        {
            assert(dirs[i as int] == components@[i as int]@);
            if self.is_excluded(components[i].as_str()) {
                assert(excluded_dirs(self.spec_config().scan.exclude.deep_view(), dirs));
                return false;
            }
            i = i + 1;
        }
        let incs = &self.config.scan.include_paths;
        let m = incs.len();
        let mut j: usize = 0;
        let mut included = false;
        while j < m
            invariant
                m == incs@.len(),
                incs == &self.config.scan.include_paths,
                j <= m,
                dirs == components.deep_view().take(n - 1),
                n == components@.len(),
                n > 0,
                included == exists|a: int| 0 <= a < j && #[trigger] under_include(incs@[a]@, dirs),
            decreases m - j,
        {
            if self.in_include(incs[j].as_str(), components, n - 1) {
                included = true;
            }
            j = j + 1;
        }
        assert(!excluded_dirs(self.spec_config().scan.exclude.deep_view(), dirs));
        if !included {
            return false;
        }
        match file_size_bytes(self.config.scan.max_file_size.as_str()) {
            Ok(limit) => (size as u128) <= limit,
            Err(_) => true,
        }
    }

    /// Why the tree under `root` cannot be scanned, given whether it exists and whether it
    /// is a directory: the message of the error, or `None` when it can be scanned.
    pub fn root_problem(&self, root: &str, exists: bool, is_dir: bool) -> (r: Option<String>)
        ensures
            !exists ==> (r matches Some(m) && m@ == "Root directory does not exist: "@ + root@),
            exists && !is_dir ==> (r matches Some(m) && m@ == "Root path is not a directory: "@ + root@),
            exists && is_dir ==> r is None,
    {
        if !exists {
            Some(concat2("Root directory does not exist: ", root))
        } else if !is_dir {
            Some(concat2("Root path is not a directory: ", root))
        } else {
            None
        }
    }
}

} // verus!
