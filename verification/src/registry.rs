//! The concurrent project registry: the set of managed projects keyed by
//! their canonical root directory, lookups by exact root, by any path under
//! a root, and by project name, and the bookkeeping effects (persistence
//! write, notifications) that every mutation owes the boundary layer.
//!
//! The entries live in a `dashmap::DashMap`, so parallel readers and
//! independent per-key writers need no global lock; the registry also keeps
//! the insertion order of the roots, so listings are deterministic. What the
//! map holds is named by `dash_contents`, and all access goes through the
//! trusted wrappers below.

use vstd::prelude::*;

verus! {

use vstd::pervasive::unreached;
use crate::paths::{ancestor_chain, file_name_chars, lemma_chain_head, lemma_parent_shorter,
    parent_chars, spec_file_name};
use crate::project::Project;
use crate::text::{chars_equal, chars_to_string, clone_strings, str_to_chars};

/// A display snapshot of one project: its root, its name (the last path
/// component of the root), and whether its language server is indexing.
#[derive(Clone, Debug)]
pub struct ProjectDescription {
    pub root: String,
    pub name: String,
    pub is_indexing_lsp: bool,
}

/// What the registry stores per project: the project itself and the advisory
/// indexing flag that progress notifications keep current.
#[derive(Clone, Debug)]
pub struct ProjectEntry {
    pub project: Project,
    pub is_indexing_lsp: bool,
}

/// The persisted shape of one project in the registry file.
#[derive(Clone, Debug)]
pub struct SerProject {
    pub root: String,
    pub ignore_crates: Vec<String>,
}

/// The persisted shape of the whole registry file.
#[derive(Clone, Debug)]
pub struct SerConfig {
    pub projects: Vec<SerProject>,
}

/// What a registry mutation asks the boundary layer to do, in order: rewrite
/// the persisted file, and deliver notifications.
#[derive(Clone, Debug)]
pub enum RegistryEffect {
    WriteConfig,
    NotifyProjectAdded(String),
    NotifyProjectRemoved(String),
    NotifySnapshot(Vec<ProjectDescription>),
}

/// Why a registry mutation was refused.
#[derive(Clone, Debug)]
pub enum RegistryError {
    AlreadyLoaded,
}

#[verifier::external_type_specification]
#[verifier::external_body]
#[verifier::reject_recursive_types(K)]
#[verifier::reject_recursive_types(V)]
#[verifier::reject_recursive_types(S)]
pub struct ExDashMap<K, V, S>(dashmap::DashMap<K, V, S>);

/// The concurrent map type that backs the registry.
pub type ProjectMap = dashmap::DashMap<String, ProjectEntry>;

/// What a registry map holds, as a map from the characters of each `String`
/// key to its entry. `String` keys hash and compare by their characters, so
/// the characters identify the slot.
pub uninterp spec fn dash_contents(m: ProjectMap) -> Map<Seq<char>, ProjectEntry>;

/// Relies on dashmap's `DashMap::new`: a map with no entries.
#[verifier::external_body]
fn dash_new() -> (m: ProjectMap)
    ensures
        dash_contents(m).dom() == Set::<Seq<char>>::empty(),
{
    dashmap::DashMap::new()
}

/// Relies on dashmap's `DashMap::insert`: maps the key to the value and
/// returns the value it replaced, if any.
#[verifier::external_body]
fn dash_insert(m: &mut ProjectMap, key: String, value: ProjectEntry) -> (prev: Option<
    ProjectEntry,
>)
    ensures
        dash_contents(*final(m)) == dash_contents(*old(m)).insert(key@, value),
        match prev {
            Some(p) => dash_contents(*old(m)).contains_key(key@) && p == dash_contents(*old(m))[key@],
            None => !dash_contents(*old(m)).contains_key(key@),
        },
{
    m.insert(key, value)
}

/// Relies on dashmap's `DashMap::remove`: takes the entry under the key out
/// of the map and returns it, if it was there.
#[verifier::external_body]
fn dash_remove(m: &mut ProjectMap, key: &String) -> (r: Option<ProjectEntry>)
    ensures
        dash_contents(*final(m)) == dash_contents(*old(m)).remove(key@),
        match r {
            Some(p) => dash_contents(*old(m)).contains_key(key@) && p == dash_contents(*old(m))[key@],
            None => !dash_contents(*old(m)).contains_key(key@),
        },
{
    m.remove(key).map(|kv| kv.1)
}

/// Relies on dashmap's `DashMap::get`: a look-up under the key. The returned
/// entry is a clone of the stored one, and `String` and `Vec` clones keep
/// their value, so it equals the stored entry.
#[verifier::external_body]
fn dash_get(m: &ProjectMap, key: &String) -> (r: Option<ProjectEntry>)
    ensures
        match r {
            Some(p) => dash_contents(*m).contains_key(key@) && p == dash_contents(*m)[key@],
            None => !dash_contents(*m).contains_key(key@),
        },
{
    m.get(key).map(|e| e.value().clone())
}

/// `descs` is a faithful snapshot of the registry state `(roots, m)`: one
/// description per root, in order, carrying the root, its last path
/// component as the name, and the current indexing flag.
pub open spec fn is_snapshot_of(
    descs: Seq<ProjectDescription>,
    roots: Seq<Seq<char>>,
    m: Map<Seq<char>, ProjectEntry>,
) -> bool {
    &&& descs.len() == roots.len()
    &&& forall|i: int|
        0 <= i < roots.len() ==> {
            &&& (#[trigger] descs[i]).root@ == roots[i]
            &&& descs[i].name@ == spec_file_name(roots[i])
            &&& m.contains_key(roots[i])
            &&& descs[i].is_indexing_lsp == m[roots[i]].is_indexing_lsp
        }
}

/// The registry of managed projects. Lookups and mutations keep two views in
/// step: the concurrent map of entries and the insertion-ordered list of
/// roots.
pub struct ProjectRegistry {
    map: ProjectMap,
    roots: Vec<String>,
}

impl ProjectRegistry {
    /// The entries, keyed by the characters of their canonical root.
    pub closed spec fn projects(&self) -> Map<Seq<char>, ProjectEntry> {
        dash_contents(self.map)
    }

    /// The roots in insertion order.
    pub closed spec fn root_views(&self) -> Seq<Seq<char>> {
        self.roots@.map_values(|s: String| s@)
    }

    /// The registry invariant: the ordered root list holds exactly the keys
    /// of the map, without repetition, and every entry sits under its own
    /// root.
    pub open spec fn wf(&self) -> bool {
        &&& (forall|i: int|
            0 <= i < self.root_views().len() ==> self.projects().contains_key(
                #[trigger] self.root_views()[i],
            ))
        &&& (forall|i: int|
            0 <= i < self.root_views().len()
                ==> self.projects()[#[trigger] self.root_views()[i]].project.root@
                == self.root_views()[i])
        &&& (forall|k: Seq<char>|
            #[trigger] self.projects().contains_key(k) ==> exists|i: int|
                0 <= i < self.root_views().len() && self.root_views()[i] == k)
        &&& (forall|i: int, j: int|
            #![trigger self.root_views()[i], self.root_views()[j]]
            0 <= i < self.root_views().len() && 0 <= j < self.root_views().len() && i != j
                ==> self.root_views()[i] != self.root_views()[j])
    }

    /// An empty registry.
    pub fn new() -> (r: ProjectRegistry)
        ensures
            r.wf(),
            r.projects() == Map::<Seq<char>, ProjectEntry>::empty(),
            r.root_views() == Seq::<Seq<char>>::empty(),
    {
        let r = ProjectRegistry { map: dash_new(), roots: Vec::new() };
        proof {
            assert(r.root_views() =~= Seq::<Seq<char>>::empty());
            assert(r.projects() =~= Map::<Seq<char>, ProjectEntry>::empty());
        }
        r
    }

    /// Whether a project with this exact root is registered.
    pub fn contains_root(&self, root: &String) -> (r: bool)
        ensures
            r == self.projects().contains_key(root@),
    {
        match dash_get(&self.map, root) {
            Some(_) => true,
            None => false,
        }
    }

    /// The entry registered under this exact root, if any.
    pub fn get_project(&self, root: &String) -> (r: Option<ProjectEntry>)
        ensures
            match r {
                Some(e) => self.projects().contains_key(root@) && e == self.projects()[root@],
                None => !self.projects().contains_key(root@),
            },
    {
        dash_get(&self.map, root)
    }

    /// Registers a project under its root. Where the root is already
    /// present, nothing changes and the add is refused; otherwise the entry
    /// is inserted with the indexing flag raised, and the caller owes a
    /// persistence write, an added notification and a snapshot notification,
    /// in that order.
    pub fn add_project(&mut self, project: Project) -> (res: Result<
        Vec<RegistryEffect>,
        RegistryError,
    >)
        requires
            old(self).wf(),
        ensures
            final(self).wf(),
            match res {
                Ok(effects) => {
                    &&& !old(self).projects().contains_key(project.root@)
                    &&& final(self).projects() == old(self).projects().insert(
                        project.root@,
                        ProjectEntry { project, is_indexing_lsp: true },
                    )
                    &&& final(self).root_views() == old(self).root_views().push(project.root@)
                    &&& effects@.len() == 3
                    &&& effects@[0] is WriteConfig
                    &&& (effects@[1] matches RegistryEffect::NotifyProjectAdded(r) && r@
                        == project.root@)
                    &&& (effects@[2] matches RegistryEffect::NotifySnapshot(d) && is_snapshot_of(
                        d@,
                        final(self).root_views(),
                        final(self).projects(),
                    ))
                },
                Err(e) => {
                    &&& e is AlreadyLoaded
                    &&& old(self).projects().contains_key(project.root@)
                    &&& final(self).projects() == old(self).projects()
                    &&& final(self).root_views() == old(self).root_views()
                },
            },
    {
        if self.contains_root(&project.root) {
            return Err(RegistryError::AlreadyLoaded);
        }
        let root_for_list: String = project.root.clone();
        let root_for_effect: String = project.root.clone();
        let root_key: String = project.root.clone();
        let ghost old_views = self.root_views();
        let ghost root_view = project.root@;
        let entry = ProjectEntry { project, is_indexing_lsp: true };
        dash_insert(&mut self.map, root_key, entry);
        self.roots.push(root_for_list);
        proof {
            assert(self.root_views() =~= old_views.push(root_view));
            assert forall|k: Seq<char>| #[trigger] self.projects().contains_key(k) implies exists|
                i: int,
            |
                0 <= i < self.root_views().len() && self.root_views()[i] == k by {
                if k == root_view {
                    assert(self.root_views()[old_views.len() as int] == k);
                } else {
                    let i = choose|i: int| 0 <= i < old_views.len() && old_views[i] == k;
                    assert(self.root_views()[i] == k);
                }
            }
        }
        let mut effects: Vec<RegistryEffect> = Vec::new();
        effects.push(RegistryEffect::WriteConfig);
        effects.push(RegistryEffect::NotifyProjectAdded(root_for_effect));
        let snapshot = self.project_descriptions();
        effects.push(RegistryEffect::NotifySnapshot(snapshot));
        Ok(effects)
    }

    /// Removes the project registered under this root, handing the entry
    /// back; the caller owes a persistence write and a removed notification.
    /// Where none is registered, nothing changes and nothing is owed: in
    /// particular the persisted file is not rewritten.
    pub fn remove_project(&mut self, root: &String) -> (res: (
        Option<ProjectEntry>,
        Vec<RegistryEffect>,
    ))
        requires
            old(self).wf(),
        ensures
            final(self).wf(),
            match res.0 {
                Some(e) => {
                    &&& old(self).projects().contains_key(root@)
                    &&& e == old(self).projects()[root@]
                    &&& final(self).projects() == old(self).projects().remove(root@)
                    &&& (exists|i: int|
                        0 <= i < old(self).root_views().len() && old(self).root_views()[i] == root@
                            && final(self).root_views() == old(self).root_views().remove(i))
                    &&& res.1@.len() == 2
                    &&& res.1@[0] is WriteConfig
                    &&& (res.1@[1] matches RegistryEffect::NotifyProjectRemoved(r) && r@ == root@)
                },
                None => {
                    &&& !old(self).projects().contains_key(root@)
                    &&& final(self).projects() == old(self).projects()
                    &&& final(self).root_views() == old(self).root_views()
                    &&& res.1@.len() == 0
                },
            },
    {
        let ghost old_views = self.root_views();
        match dash_remove(&mut self.map, root) {
            None => {
                proof {
                    assert(old(self).projects().remove(root@) =~= old(self).projects());
                }
                (None, Vec::new())
            },
            Some(entry) => {
                proof {
                    assert(old(self).projects().contains_key(root@));
                }
                let n: usize = self.roots.len();
                let mut idx: usize = 0;
                while idx < n
                    invariant_except_break
                        idx <= n,
                        n == self.roots@.len(),
                        old_views == self.root_views(),
                        old_views.len() == n,
                        exists|i: int| 0 <= i < old_views.len() && old_views[i] == root@,
                        forall|j: int| 0 <= j < idx ==> old_views[j] != root@,
                    ensures
                        idx < n,
                        n == self.roots@.len(),
                        old_views == self.root_views(),
                        old_views[idx as int] == root@,
                        forall|j: int| 0 <= j < idx ==> old_views[j] != root@,
                    decreases n - idx,
                {
                    let hit: bool = self.roots[idx] == *root;
                    proof {
                        assert(old_views[idx as int] == self.roots@[idx as int]@);
                    }
                    if hit {
                        break ;
                    }
                    idx = idx + 1;
                }
                let ghost pos = idx as int;
                self.roots.remove(idx);
                proof {
                    assert(self.root_views() =~= old_views.remove(pos));
                    let newv = self.root_views();
                    assert forall|i: int| 0 <= i < newv.len() implies {
                        &&& self.projects().contains_key(#[trigger] newv[i])
                        &&& self.projects()[newv[i]].project.root@ == newv[i]
                    } by {
                        let oi = if i < pos {
                            i
                        } else {
                            i + 1
                        };
                        assert(newv[i] == old_views[oi]);
                        assert(old_views[oi] != root@);
                    }
                    assert forall|k: Seq<char>| #[trigger]
                        self.projects().contains_key(k) implies exists|i: int|
                        0 <= i < newv.len() && newv[i] == k by {
                        let oi = choose|oi: int|
                            0 <= oi < old_views.len() && old_views[oi] == k;
                        assert(k != root@);
                        assert(oi != pos);
                        if oi < pos {
                            assert(newv[oi] == k);
                        } else {
                            assert(newv[oi - 1] == k);
                        }
                    }
                    assert forall|i: int, j: int|
                        #![trigger newv[i], newv[j]]
                        0 <= i < newv.len() && 0 <= j < newv.len() && i != j implies newv[i]
                        != newv[j] by {
                        let oi = if i < pos {
                            i
                        } else {
                            i + 1
                        };
                        let oj = if j < pos {
                            j
                        } else {
                            j + 1
                        };
                        assert(newv[i] == old_views[oi]);
                        assert(newv[j] == old_views[oj]);
                    }
                }
                let mut effects: Vec<RegistryEffect> = Vec::new();
                effects.push(RegistryEffect::WriteConfig);
                effects.push(RegistryEffect::NotifyProjectRemoved(root.clone()));
                (Some(entry), effects)
            },
        }
    }

    /// Sets the advisory indexing flag of the project under this root;
    /// reports whether such a project exists. Nothing else changes.
    pub fn set_indexing(&mut self, root: &String, is_indexing: bool) -> (found: bool)
        requires
            old(self).wf(),
        ensures
            final(self).wf(),
            found == old(self).projects().contains_key(root@),
            final(self).root_views() == old(self).root_views(),
            if found {
                final(self).projects() == old(self).projects().insert(
                    root@,
                    ProjectEntry {
                        project: old(self).projects()[root@].project,
                        is_indexing_lsp: is_indexing,
                    },
                )
            } else {
                final(self).projects() == old(self).projects()
            },
    {
        match dash_get(&self.map, root) {
            None => false,
            Some(entry) => {
                let updated = ProjectEntry { project: entry.project, is_indexing_lsp: is_indexing };
                dash_insert(&mut self.map, root.clone(), updated);
                proof {
                    let newv = self.root_views();
                    assert forall|k: Seq<char>| #[trigger]
                        self.projects().contains_key(k) implies exists|i: int|
                        0 <= i < newv.len() && newv[i] == k by {
                        assert(old(self).projects().contains_key(k));
                    }
                }
                true
            },
        }
    }

    /// A display snapshot of every project, in insertion order, taken
    /// without holding any write lock.
    pub fn project_descriptions(&self) -> (r: Vec<ProjectDescription>)
        requires
            self.wf(),
        ensures
            is_snapshot_of(r@, self.root_views(), self.projects()),
    {
        let mut r: Vec<ProjectDescription> = Vec::new();
        let n: usize = self.roots.len();
        let mut i: usize = 0;
        while i < n
            invariant
                self.wf(),
                i <= n,
                n == self.roots@.len(),
                r@.len() == i,
                forall|j: int|
                    0 <= j < i ==> {
                        &&& (#[trigger] r@[j]).root@ == self.root_views()[j]
                        &&& r@[j].name@ == spec_file_name(self.root_views()[j])
                        &&& self.projects().contains_key(self.root_views()[j])
                        &&& r@[j].is_indexing_lsp
                            == self.projects()[self.root_views()[j]].is_indexing_lsp
                    },
            decreases n - i,
        {
            let root: &String = &self.roots[i];
            proof {
                assert(self.root_views()[i as int] == self.roots@[i as int]@);
                assert(self.projects().contains_key(self.root_views()[i as int]));
            }
            let entry = match dash_get(&self.map, root) {
                Some(e) => e,
                None => unreached(),
            };
            let root_chars = str_to_chars(root.as_str());
            let name_chars = file_name_chars(&root_chars);
            let name = chars_to_string(&name_chars);
            r.push(
                ProjectDescription {
                    root: root.clone(),
                    name,
                    is_indexing_lsp: entry.is_indexing_lsp,
                },
            );
            i = i + 1;
        }
        r
    }

    /// The first project, in insertion order, whose name (the last path
    /// component of its root) equals `name`, if any.
    pub fn find_project_by_name(&self, name: &String) -> (r: Option<ProjectEntry>)
        requires
            self.wf(),
        ensures
            match r {
                Some(e) => exists|i: int|
                    {
                        &&& 0 <= i < self.root_views().len()
                        &&& spec_file_name(#[trigger] self.root_views()[i]) == name@
                        &&& self.projects().contains_key(self.root_views()[i])
                        &&& e == self.projects()[self.root_views()[i]]
                        &&& forall|j: int|
                            0 <= j < i ==> spec_file_name(#[trigger] self.root_views()[j]) != name@
                    },
                None => forall|i: int|
                    0 <= i < self.root_views().len() ==> spec_file_name(
                        #[trigger] self.root_views()[i],
                    ) != name@,
            },
    {
        let n: usize = self.roots.len();
        let name_chars = str_to_chars(name.as_str());
        let mut i: usize = 0;
        while i < n
            invariant
                self.wf(),
                i <= n,
                n == self.roots@.len(),
                name_chars@ == name@,
                forall|j: int|
                    0 <= j < i ==> spec_file_name(#[trigger] self.root_views()[j]) != name@,
            decreases n - i,
        {
            let root: &String = &self.roots[i];
            let root_chars = str_to_chars(root.as_str());
            let fname = file_name_chars(&root_chars);
            proof {
                assert(self.root_views()[i as int] == self.roots@[i as int]@);
                assert(self.projects().contains_key(self.root_views()[i as int]));
            }
            if chars_equal(&fname, &name_chars) {
                let entry = match dash_get(&self.map, root) {
                    Some(e) => e,
                    None => unreached(),
                };
                return Some(entry);
            }
            i = i + 1;
        }
        None
    }

    /// The project owning `path`: the nearest registered root among `path`
    /// and its ancestors, or nothing where no ancestor is registered.
    pub fn get_project_by_path(&self, path: &String) -> (r: Option<ProjectEntry>)
        ensures
            match r {
                Some(e) => exists|i: int|
                    {
                        &&& 0 <= i < ancestor_chain(path@).len()
                        &&& self.projects().contains_key(#[trigger] ancestor_chain(path@)[i])
                        &&& e == self.projects()[ancestor_chain(path@)[i]]
                        &&& forall|j: int|
                            0 <= j < i ==> !self.projects().contains_key(
                                #[trigger] ancestor_chain(path@)[j],
                            )
                    },
                None => forall|i: int|
                    0 <= i < ancestor_chain(path@).len() ==> !self.projects().contains_key(
                        #[trigger] ancestor_chain(path@)[i],
                    ),
            },
    {
        let ghost chain = ancestor_chain(path@);
        let mut cur: Vec<char> = str_to_chars(path.as_str());
        let ghost mut k: int = 0;
        proof {
            lemma_chain_head(path@);
            assert(ancestor_chain(cur@) =~= chain.skip(0));
        }
        loop
            invariant
                0 <= k < chain.len(),
                chain == ancestor_chain(path@),
                ancestor_chain(cur@) == chain.skip(k),
                forall|j: int|
                    0 <= j < k ==> !self.projects().contains_key(#[trigger] chain[j]),
            decreases cur@.len(),
        {
            proof {
                lemma_chain_head(cur@);
                assert(chain.skip(k)[0] == chain[k]);
                assert(chain[k] == cur@);
            }
            let cur_s: String = chars_to_string(&cur);
            match dash_get(&self.map, &cur_s) {
                Some(e) => {
                    proof {
                        assert(self.projects().contains_key(ancestor_chain(path@)[k]));
                        assert(forall|j: int|
                            0 <= j < k ==> !self.projects().contains_key(
                                #[trigger] ancestor_chain(path@)[j],
                            ));
                    }
                    return Some(e);
                },
                None => {},
            }
            match parent_chars(&cur) {
                None => {
                    proof {
                        assert(ancestor_chain(cur@) =~= seq![cur@]);
                        assert(chain.len() - k == 1);
                        assert forall|i: int|
                            0 <= i < chain.len() implies !self.projects().contains_key(
                            #[trigger] chain[i],
                        ) by {
                            if i == k {
                                assert(chain[i] == cur@);
                            }
                        }
                    }
                    return None;
                },
                Some(p) => {
                    proof {
                        lemma_parent_shorter(cur@);
                        assert(ancestor_chain(cur@) == seq![cur@] + ancestor_chain(p@));
                        assert(ancestor_chain(cur@).skip(1) =~= ancestor_chain(p@));
                        assert(chain.skip(k).skip(1) =~= chain.skip(k + 1));
                        assert(chain.skip(k + 1).len() == ancestor_chain(p@).len() >= 1);
                        k = k + 1;
                    }
                    cur = p;
                },
            }
        }
    }

    /// The persisted form of the registry: one record per project, in
    /// insertion order, carrying its root and ignore list.
    pub fn to_config(&self) -> (c: SerConfig)
        requires
            self.wf(),
        ensures
            c.projects@.len() == self.root_views().len(),
            forall|i: int|
                0 <= i < self.root_views().len() ==> {
                    &&& (#[trigger] c.projects@[i]).root@ == self.root_views()[i]
                    &&& c.projects@[i].ignore_crates@
                        == self.projects()[self.root_views()[i]].project.ignore_crates@
                },
    {
        let mut out: Vec<SerProject> = Vec::new();
        let n: usize = self.roots.len();
        let mut i: usize = 0;
        while i < n
            invariant
                self.wf(),
                i <= n,
                n == self.roots@.len(),
                out@.len() == i,
                forall|j: int|
                    0 <= j < i ==> {
                        &&& (#[trigger] out@[j]).root@ == self.root_views()[j]
                        &&& out@[j].ignore_crates@
                            == self.projects()[self.root_views()[j]].project.ignore_crates@
                    },
            decreases n - i,
        {
            let root: &String = &self.roots[i];
            proof {
                assert(self.root_views()[i as int] == self.roots@[i as int]@);
                assert(self.projects().contains_key(self.root_views()[i as int]));
            }
            let entry = match dash_get(&self.map, root) {
                Some(e) => e,
                None => unreached(),
            };
            out.push(
                SerProject {
                    root: root.clone(),
                    ignore_crates: clone_strings(&entry.project.ignore_crates),
                },
            );
            i = i + 1;
        }
        SerConfig { projects: out }
    }
}

/// After a successful add of a project, a look-up of its root finds an entry
/// whose root is exactly the root that was added.
pub proof fn lemma_add_then_get(pre: Map<Seq<char>, ProjectEntry>, project: Project)
    ensures
        ({
            let post = pre.insert(project.root@, ProjectEntry { project, is_indexing_lsp: true });
            post.contains_key(project.root@) && post[project.root@].project.root@ == project.root@
        }),
{
}

} // verus!
