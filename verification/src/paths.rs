//! The layout of a project's `.kiro` directory.
//!
//! Every location is given either relative to the project root or joined to
//! it, the way `PathBuf::join` joins a relative path on Unix.

use vstd::prelude::*;
use vstd::string::StringExecFns;
use crate::text::{append_str, chars_of, push_char, string_from_range};

verus! {

/// `rel` joined to `base` with one `/` between them, as `PathBuf::join`
/// does for a relative `rel`: an empty base gives `rel`, and a base that
/// already ends in `/` gets no second one.
pub open spec fn join_path(base: Seq<char>, rel: Seq<char>) -> Seq<char> {
    if base.len() == 0 {
        rel
    } else if base.last() == '/' {
        base + rel
    } else {
        base + seq!['/'] + rel
    }
}

/// Joins the relative path `rel` to `base` (see `join_path`).
pub fn join(base: &str, rel: &str) -> (r: String)
    ensures
        r@ == join_path(base@, rel@),
{
    let b = chars_of(base);
    let mut r = String::from_str(base);
    if b.len() > 0 && b[b.len() - 1] != '/' {
        push_char(&mut r, '/');
    }
    append_str(&mut r, rel);
    r
}

/// The `.kiro` directory relative to the project root.
pub open spec fn kiro_rel() -> Seq<char> {
    ".kiro"@
}

/// The configuration file relative to the project root.
pub open spec fn config_rel() -> Seq<char> {
    ".kiro/config.toml"@
}

/// The specifications directory relative to the project root.
pub open spec fn specs_rel() -> Seq<char> {
    ".kiro/specs"@
}

/// The archive of completed specifications relative to the project root.
pub open spec fn archive_rel() -> Seq<char> {
    ".kiro/archive"@
}

/// The memory directory relative to the project root.
pub open spec fn memory_rel() -> Seq<char> {
    ".kiro/memory"@
}

/// The memory database relative to the project root.
pub open spec fn memory_db_rel() -> Seq<char> {
    ".kiro/memory/db.sqlite3"@
}

/// Locates the files of a project from its root directory.
#[derive(Debug, Clone)]
pub struct PathManager {
    project_root: String,
}

impl PathManager {
    /// The project root this manager was made with.
    pub closed spec fn root(&self) -> Seq<char> {
        self.project_root@
    }

    /// The `.kiro` directory, joined to the root or relative.
    pub open spec fn spec_kiro_dir(&self, absolute: bool) -> Seq<char> {
        if absolute {
            join_path(self.root(), ".kiro"@)
        } else {
            kiro_rel()
        }
    }

    /// The configuration file, joined to the root or relative.
    pub open spec fn spec_config_path(&self, absolute: bool) -> Seq<char> {
        if absolute {
            join_path(self.spec_kiro_dir(true), "config.toml"@)
        } else {
            config_rel()
        }
    }

    /// The specifications directory, joined to the root or relative.
    pub open spec fn spec_specs_dir(&self, absolute: bool) -> Seq<char> {
        if absolute {
            join_path(self.spec_kiro_dir(true), "specs"@)
        } else {
            specs_rel()
        }
    }

    /// The archive directory, joined to the root or relative.
    pub open spec fn spec_archive_dir(&self, absolute: bool) -> Seq<char> {
        if absolute {
            join_path(self.spec_kiro_dir(true), "archive"@)
        } else {
            archive_rel()
        }
    }

    /// The memory directory, joined to the root or relative.
    pub open spec fn spec_memory_dir(&self, absolute: bool) -> Seq<char> {
        if absolute {
            join_path(self.spec_kiro_dir(true), "memory"@)
        } else {
            memory_rel()
        }
    }

    /// The memory database, joined to the root or relative.
    pub open spec fn spec_memory_db_path(&self, absolute: bool) -> Seq<char> {
        if absolute {
            join_path(self.spec_memory_dir(true), "db.sqlite3"@)
        } else {
            memory_db_rel()
        }
    }

    /// A manager for the project rooted at `project_root`.
    pub fn new(project_root: String) -> (pm: Self)
        ensures
            pm.root() == project_root@,
    {
        PathManager { project_root }
    }

    /// The project root.
    pub fn project_root(&self) -> (r: &str)
        ensures
            r@ == self.root(),
    {
        self.project_root.as_str()
    }

    /// The `.kiro` directory.
    pub fn kiro_dir(&self, absolute: bool) -> (r: String)
        ensures
            r@ == self.spec_kiro_dir(absolute),
    {
        if absolute {
            join(self.project_root.as_str(), ".kiro")
        } else {
            String::from_str(".kiro")
        }
    }

    /// The configuration file `config.toml` in the `.kiro` directory.
    pub fn config_path(&self, absolute: bool) -> (r: String)
        ensures
            r@ == self.spec_config_path(absolute),
    {
        if absolute {
            join(self.kiro_dir(true).as_str(), "config.toml")
        } else {
            String::from_str(".kiro/config.toml")
        }
    }

    /// The specifications directory `specs` in the `.kiro` directory.
    pub fn specs_dir(&self, absolute: bool) -> (r: String)
        ensures
            r@ == self.spec_specs_dir(absolute),
    {
        if absolute {
            join(self.kiro_dir(true).as_str(), "specs")
        } else {
            String::from_str(".kiro/specs")
        }
    }

    /// The archive of completed specifications `archive` in the `.kiro` directory.
    pub fn archive_dir(&self, absolute: bool) -> (r: String)
        ensures
            r@ == self.spec_archive_dir(absolute),
    {
        if absolute {
            join(self.kiro_dir(true).as_str(), "archive")
        } else {
            String::from_str(".kiro/archive")
        }
    }

    /// The memory directory `memory` in the `.kiro` directory.
    pub fn memory_dir(&self, absolute: bool) -> (r: String)
        ensures
            r@ == self.spec_memory_dir(absolute),
    {
        if absolute {
            join(self.kiro_dir(true).as_str(), "memory")
        } else {
            String::from_str(".kiro/memory")
        }
    }

    /// The memory database `db.sqlite3` in the memory directory.
    pub fn memory_db_path(&self, absolute: bool) -> (r: String)
        ensures
            r@ == self.spec_memory_db_path(absolute),
    {
        if absolute {
            join(self.memory_dir(true).as_str(), "db.sqlite3")
        } else {
            String::from_str(".kiro/memory/db.sqlite3")
        }
    }
}

proof fn lemma_join_assoc(base: Seq<char>, a: Seq<char>, b: Seq<char>)
    requires
        a.len() > 0,
        a.last() != '/',
    ensures
        join_path(join_path(base, a), b) == join_path(base, a + seq!['/'] + b),
{
    let ab = a + seq!['/'] + b;
    assert(join_path(base, a).len() > 0);
    assert(join_path(base, a).last() == a.last()) by {
        if base.len() == 0 {
        } else if base.last() == '/' {
            assert((base + a).last() == a.last());
        } else {
            assert((base + seq!['/'] + a).last() == a.last());
        }
    }
    if base.len() == 0 {
    } else if base.last() == '/' {
        assert(base + a + seq!['/'] + b =~= base + ab);
    } else {
        assert(base + seq!['/'] + a + seq!['/'] + b =~= base + seq!['/'] + ab);
    }
}

/// Law: every absolute location is the project root joined with the
/// corresponding relative location.
pub proof fn law_absolute_is_root_joined(pm: PathManager)
    ensures
        pm.spec_kiro_dir(true) == join_path(pm.root(), pm.spec_kiro_dir(false)),
        pm.spec_config_path(true) == join_path(pm.root(), pm.spec_config_path(false)),
        pm.spec_specs_dir(true) == join_path(pm.root(), pm.spec_specs_dir(false)),
        pm.spec_archive_dir(true) == join_path(pm.root(), pm.spec_archive_dir(false)),
        pm.spec_memory_dir(true) == join_path(pm.root(), pm.spec_memory_dir(false)),
        pm.spec_memory_db_path(true) == join_path(pm.root(), pm.spec_memory_db_path(false)),
{
    reveal_strlit(".kiro");
    reveal_strlit("config.toml");
    reveal_strlit("specs");
    reveal_strlit("archive");
    reveal_strlit("memory");
    reveal_strlit("db.sqlite3");
    reveal_strlit(".kiro/config.toml");
    reveal_strlit(".kiro/specs");
    reveal_strlit(".kiro/archive");
    reveal_strlit(".kiro/memory");
    reveal_strlit(".kiro/memory/db.sqlite3");
    let root = pm.root();
    lemma_join_assoc(root, ".kiro"@, "config.toml"@);
    assert(".kiro"@ + seq!['/'] + "config.toml"@ =~= ".kiro/config.toml"@);
    lemma_join_assoc(root, ".kiro"@, "specs"@);
    assert(".kiro"@ + seq!['/'] + "specs"@ =~= ".kiro/specs"@);
    lemma_join_assoc(root, ".kiro"@, "archive"@);
    assert(".kiro"@ + seq!['/'] + "archive"@ =~= ".kiro/archive"@);
    lemma_join_assoc(root, ".kiro"@, "memory"@);
    assert(".kiro"@ + seq!['/'] + "memory"@ =~= ".kiro/memory"@);
    let mem = ".kiro/memory"@;
    lemma_join_assoc(root, mem, "db.sqlite3"@);
    assert(mem + seq!['/'] + "db.sqlite3"@ =~= ".kiro/memory/db.sqlite3"@);
}

/// The position of the last `/` in `p`, or -1 when there is none.
pub open spec fn last_slash(p: Seq<char>) -> int
    decreases p.len(),
{
    if p.len() == 0 {
        -1
    } else if p.last() == '/' {
        p.len() - 1
    } else {
        last_slash(p.drop_last())
    }
}

/// The parent of a directory written as an absolute path without a
/// trailing `/`, as `PathBuf::pop` leaves it: the text before the last `/`,
/// or `/` itself for a directory right under the root; the root, and a
/// text without `/`, have none.
pub open spec fn parent_dir(p: Seq<char>) -> Option<Seq<char>> {
    let k = last_slash(p);
    if k < 0 {
        None
    } else if k == 0 {
        if p.len() > 1 {
            Some(seq!['/'])
        } else {
            None
        }
    } else {
        Some(p.subrange(0, k))
    }
}

proof fn lemma_last_slash(p: Seq<char>)
    ensures
        -1 <= last_slash(p) < p.len(),
        last_slash(p) >= 0 ==> p[last_slash(p)] == '/',
        forall|i: int| last_slash(p) < i < p.len() ==> p[i] != '/',
    decreases p.len(),
{
    if p.len() > 0 && p.last() != '/' {
        lemma_last_slash(p.drop_last());
        assert forall|i: int| last_slash(p) < i < p.len() implies p[i] != '/' by {
            if i < p.len() - 1 {
                assert(p[i] == p.drop_last()[i]);
            }
        }
    }
}

proof fn lemma_last_slash_unique(p: Seq<char>, k: int)
    requires
        -1 <= k < p.len(),
        k >= 0 ==> p[k] == '/',
        forall|i: int| k < i < p.len() ==> p[i] != '/',
    ensures
        last_slash(p) == k,
    decreases p.len(),
{
    if p.len() > 0 && k < p.len() - 1 {
        assert forall|i: int| k < i < p.drop_last().len() implies p.drop_last()[i] != '/' by {
            assert(p.drop_last()[i] == p[i]);
        }
        if k >= 0 {
            assert(p.drop_last()[k] == p[k]);
        }
        lemma_last_slash_unique(p.drop_last(), k);
    }
}

/// The directories from `p` up to the root, nearest first: `p`, then its
/// parent, and so on while there is one.
pub open spec fn ancestors(p: Seq<char>) -> Seq<Seq<char>>
    decreases p.len(),
{
    match parent_dir(p) {
        Some(q) => if q.len() < p.len() {
            seq![p] + ancestors(q)
        } else {
            seq![p]
        },
        None => seq![p],
    }
}

/// The parent of a directory (see `parent_dir`).
pub fn parent_of(p: &str) -> (r: Option<String>)
    ensures
        r matches Some(q) ==> parent_dir(p@) == Some(q@),
        r is None <==> parent_dir(p@) is None,
{
    let v = chars_of(p);
    let mut k: usize = v.len();
    while k > 0 && v[k - 1] != '/'
        invariant
            k <= v@.len(),
            v@ == p@,
            forall|i: int| k <= i < v@.len() ==> v@[i] != '/',
        decreases k,
    {
        k = k - 1;
    }
    proof {
        lemma_last_slash_unique(v@, k - 1);
    }
    if k == 0 {
        None
    } else if k == 1 {
        if v.len() > 1 {
            let mut root = String::new();
            push_char(&mut root, '/');
            assert(root@ =~= seq!['/']);
            Some(root)
        } else {
            None
        }
    } else {
        Some(string_from_range(v.as_slice(), 0, k - 1))
    }
}

/// The directories in which the project root is looked for: `dir`, then
/// each parent up to the root (see `ancestors`).
pub fn ancestor_dirs(dir: &str) -> (r: Vec<String>)
    ensures
        r@.map_values(|d: String| d@) == ancestors(dir@),
{
    let mut r: Vec<String> = Vec::new();
    let mut cur = String::from_str(dir);
    let ghost start = dir@;
    assert(r@.map_values(|d: String| d@) + ancestors(cur@) =~= ancestors(start));
    loop
        invariant
            start == dir@,
            r@.map_values(|d: String| d@) + ancestors(cur@) == ancestors(start),
        decreases cur@.len(),
    {
        let parent = parent_of(cur.as_str());
        let ghost before = r@;
        proof {
            lemma_last_slash(cur@);
        }
        match parent {
            Some(q) => {
                let ghost c = cur@;
                assert(q@.len() < c.len());
                r.push(cur);
                assert(r@.map_values(|d: String| d@) =~= before.map_values(|d: String| d@).push(c));
                assert(before.map_values(|d: String| d@) + ancestors(c) =~= before.map_values(
                    |d: String| d@,
                ).push(c) + ancestors(q@));
                cur = q;
            },
            None => {
                let ghost c = cur@;
                r.push(cur);
                assert(r@.map_values(|d: String| d@) =~= before.map_values(|d: String| d@).push(c));
                assert(before.map_values(|d: String| d@) + ancestors(c) =~= before.map_values(
                    |d: String| d@,
                ).push(c));
                return r;
            },
        }
    }
}

} // verus!
