//! The mutable, build-lifetime state threaded through every step: the
//! permanently-installed and build-only package-name sets, the ecosystem
//! configuration, and the registered cache directories. Also the actions a
//! step asks the surrounding driver to perform.

use vstd::prelude::*;
use crate::npm::NpmConfig;
use crate::packages::Package;
use crate::strutil::str_eq;

verus! {

/// A set of package names. Duplicates are never stored twice; the view is
/// the set of name views.
#[derive(Debug)]
pub struct NameSet {
    names: Vec<String>,
}

impl View for NameSet {
    type V = Set<Seq<char>>;

    closed spec fn view(&self) -> Set<Seq<char>> {
        self.names.deep_view().to_set()
    }
}

impl NameSet {
    /// The empty set.
    pub fn new() -> (r: NameSet)
        ensures
            r@ == Set::<Seq<char>>::empty(),
    {
        let r = NameSet { names: Vec::new() };
        proof {
            assert(r@ =~= Set::<Seq<char>>::empty());
        }
        r
    }

    /// Whether `name` is in the set.
    pub fn contains(&self, name: &str) -> (r: bool)
        ensures
            r == self@.contains(name@),
    {
        let mut i: usize = 0;
        while i < self.names.len()
            invariant
                i <= self.names.len(),
                forall|j: int| 0 <= j < i ==> self.names.deep_view()[j] != name@,
            decreases self.names.len() - i,
        {
            if str_eq(self.names[i].as_str(), name) {
                proof {
                    assert(self.names.deep_view()[i as int] == name@);
                }
                return true;
            }
            i = i + 1;
        }
        proof {
            assert(!self.names.deep_view().contains(name@));
        }
        false
    }

    /// Adds `name`; a name already present is not stored again.
    pub fn insert(&mut self, name: String)
        ensures
            final(self)@ == old(self)@.insert(name@),
    {
        if !self.contains(name.as_str()) {
            self.names.push(name);
            proof {
                assert(self.names.deep_view() =~= old(self).names.deep_view().push(name@));
                assert forall|n: Seq<char>| #[trigger] self@.contains(n) == old(self)@.insert(
                    name@,
                ).contains(n) by {
                    if self.names.deep_view().contains(n) {
                        let j = choose|j: int|
                            0 <= j < self.names.deep_view().len() && self.names.deep_view()[j] == n;
                        if j < old(self).names.deep_view().len() {
                            assert(old(self).names.deep_view()[j] == n);
                        }
                    }
                    if old(self).names.deep_view().contains(n) {
                        let j = choose|j: int|
                            0 <= j < old(self).names.deep_view().len() && old(
                                self,
                            ).names.deep_view()[j] == n;
                        assert(self.names.deep_view()[j] == n);
                    }
                    if n == name@ {
                        assert(self.names.deep_view().last() == n);
                    }
                }
                assert(self@ =~= old(self)@.insert(name@));
            }
        } else {
            proof {
                assert(self@ =~= old(self)@.insert(name@));
            }
        }
    }

    /// Removes `name` if present.
    pub fn remove(&mut self, name: &str)
        ensures
            final(self)@ == old(self)@.remove(name@),
    {
        let ghost s = self.names.deep_view();
        let mut kept: Vec<String> = Vec::new();
        let mut i: usize = 0;
        while i < self.names.len()
            invariant
                i <= self.names.len(),
                s == self.names.deep_view(),
                s.len() == self.names@.len(),
                forall|j: int| 0 <= j < s.len() ==> s[j] == self.names@[j]@,
                forall|n: Seq<char>| #[trigger]
                    kept.deep_view().contains(n) == (s.take(i as int).contains(n) && n != name@),
                self.names == old(self).names,
            decreases self.names.len() - i,
        {
            let ghost pre = kept.deep_view();
            let ghost t = s.take(i + 1);
            if !str_eq(self.names[i].as_str(), name) {
                kept.push(self.names[i].clone());
                proof {
                    assert(kept.deep_view() =~= pre.push(s[i as int]));
                    assert forall|n: Seq<char>| #[trigger] kept.deep_view().contains(n) == (
                    t.contains(n) && n != name@) by {
                        if kept.deep_view().contains(n) {
                            let j = choose|j: int|
                                0 <= j < kept.deep_view().len() && kept.deep_view()[j] == n;
                            if j < pre.len() {
                                assert(pre[j] == n);
                                assert(pre.contains(n));
                                let m = choose|m: int|
                                    0 <= m < i && s.take(i as int)[m] == n;
                                assert(t[m] == n);
                            } else {
                                assert(kept.deep_view()[j] == s[i as int]);
                                assert(t[i as int] == n);
                            }
                        }
                        if t.contains(n) && n != name@ {
                            let j = choose|j: int| 0 <= j < t.len() && t[j] == n;
                            if j < i {
                                assert(s.take(i as int)[j] == t[j]);
                                assert(s.take(i as int).contains(n));
                                assert(pre.contains(n));
                                let m = choose|m: int| 0 <= m < pre.len() && pre[m] == n;
                                assert(kept.deep_view()[m] == n);
                            } else {
                                assert(kept.deep_view().last() == n);
                            }
                        }
                    }
                }
            } else {
                proof {
                    assert(s[i as int] == name@);
                    assert forall|n: Seq<char>| #[trigger] kept.deep_view().contains(n) == (
                    t.contains(n) && n != name@) by {
                        if t.contains(n) && n != name@ {
                            let j = choose|j: int| 0 <= j < t.len() && t[j] == n;
                            assert(t[j] == s[j]);
                            assert(j < i);
                            assert(s.take(i as int)[j] == n);
                            assert(s.take(i as int).contains(n));
                            assert(pre.contains(n));
                        }
                        if pre.contains(n) {
                            assert(s.take(i as int).contains(n) && n != name@);
                            let j = choose|j: int| 0 <= j < i && s.take(i as int)[j] == n;
                            assert(t[j] == n);
                        }
                    }
                }
            }
            i = i + 1;
        }
        proof {
            assert(s.take(s.len() as int) =~= s);
        }
        self.names = kept;
        proof {
            assert forall|n: Seq<char>| #[trigger] self@.contains(n) == old(self)@.remove(
                name@,
            ).contains(n) by {
                assert(self.names.deep_view().contains(n) == (s.contains(n) && n != name@));
            }
            assert(self@ =~= old(self)@.remove(name@));
        }
    }
}

/// Registered cache directories: logical name to host path, idempotent
/// registration (the first registration of a name wins).
#[derive(Debug)]
pub struct CacheDirs {
    entries: Vec<CacheDirEntry>,
}

#[derive(Debug)]
pub struct CacheDirEntry {
    pub name: String,
    pub path: String,
}

/// The mapping described by a list of registrations, later entries winning.
pub open spec fn dirs_map(s: Seq<(Seq<char>, Seq<char>)>) -> Map<Seq<char>, Seq<char>>
    decreases s.len(),
{
    if s.len() == 0 {
        Map::empty()
    } else {
        dirs_map(s.drop_last()).insert(s.last().0, s.last().1)
    }
}

impl View for CacheDirs {
    type V = Map<Seq<char>, Seq<char>>;

    closed spec fn view(&self) -> Map<Seq<char>, Seq<char>> {
        dirs_map(self.entries@.map(|i: int, e: CacheDirEntry| (e.name@, e.path@)))
    }
}

proof fn lemma_dirs_map_dom(s: Seq<(Seq<char>, Seq<char>)>)
    ensures
        forall|n: Seq<char>| #[trigger]
            dirs_map(s).dom().contains(n) == exists|i: int| 0 <= i < s.len() && s[i].0 == n,
    decreases s.len(),
{
    if s.len() > 0 {
        lemma_dirs_map_dom(s.drop_last());
        let d = s.drop_last();
        assert forall|n: Seq<char>| #[trigger] dirs_map(s).dom().contains(n) == exists|i: int|
            0 <= i < s.len() && s[i].0 == n by {
            if dirs_map(s).dom().contains(n) {
                if n == s.last().0 {
                    assert(s[s.len() - 1].0 == n);
                } else {
                    assert(dirs_map(d).dom().contains(n));
                    let i = choose|i: int| 0 <= i < d.len() && d[i].0 == n;
                    assert(d[i] == s[i]);
                    assert(s[i].0 == n);
                }
            }
            if exists|i: int| 0 <= i < s.len() && s[i].0 == n {
                let i = choose|i: int| 0 <= i < s.len() && s[i].0 == n;
                if i == s.len() - 1 {
                    assert(n == s.last().0);
                    assert(dirs_map(s).dom().contains(n));
                } else {
                    assert(d[i] == s[i]);
                    assert(d[i].0 == n);
                    assert(exists|j: int| 0 <= j < d.len() && d[j].0 == n);
                    assert(dirs_map(d).dom().contains(n));
                    assert(dirs_map(s).dom().contains(n));
                }
            }
        }
    }
}

impl CacheDirs {
    /// No registrations.
    pub fn new() -> (r: CacheDirs)
        ensures
            r@ == Map::<Seq<char>, Seq<char>>::empty(),
    {
        let r = CacheDirs { entries: Vec::new() };
        proof {
            assert(r.entries@.map(|i: int, e: CacheDirEntry| (e.name@, e.path@))
                =~= Seq::<(Seq<char>, Seq<char>)>::empty());
            assert(r@ =~= Map::<Seq<char>, Seq<char>>::empty());
        }
        r
    }

    /// Whether a directory is registered under `name`.
    pub fn is_registered(&self, name: &str) -> (r: bool)
        ensures
            r == self@.dom().contains(name@),
    {
        let ghost pairs = self.entries@.map(|i: int, e: CacheDirEntry| (e.name@, e.path@));
        proof {
            lemma_dirs_map_dom(pairs);
        }
        let mut i: usize = 0;
        while i < self.entries.len()
            invariant
                i <= self.entries.len(),
                forall|j: int| 0 <= j < i ==> self.entries@[j].name@ != name@,
                pairs == self.entries@.map(|i: int, e: CacheDirEntry| (e.name@, e.path@)),
                forall|n: Seq<char>| #[trigger]
                    self@.dom().contains(n) == exists|k: int|
                        0 <= k < pairs.len() && pairs[k].0 == n,
            decreases self.entries.len() - i,
        {
            if str_eq(self.entries[i].name.as_str(), name) {
                proof {
                    assert(pairs[i as int].0 == name@);
                }
                return true;
            }
            i = i + 1;
        }
        proof {
            assert forall|k: int| 0 <= k < pairs.len() implies pairs[k].0 != name@ by {
                assert(self.entries@[k].name@ != name@);
            }
        }
        false
    }

    /// Registers a directory; a name already registered keeps its mapping.
    pub fn register(&mut self, name: &str, path: &str)
        ensures
            final(self)@ == if old(self)@.dom().contains(name@) {
                old(self)@
            } else {
                old(self)@.insert(name@, path@)
            },
    {
        if !self.is_registered(name) {
            let ghost pre = self.entries@.map(|i: int, e: CacheDirEntry| (e.name@, e.path@));
            self.entries.push(CacheDirEntry { name: name.to_owned(), path: path.to_owned() });
            proof {
                assert(self.entries@.map(|i: int, e: CacheDirEntry| (e.name@, e.path@)) =~= pre.push(
                    (name@, path@),
                ));
                assert(pre.push((name@, path@)).drop_last() =~= pre);
                assert(self@ =~= old(self)@.insert(name@, path@));
            }
        }
    }
}

/// A side effect that a step asks the recipe driver to perform. Steps
/// compute these; the driver, which owns the process runner and the
/// distribution backend, carries them out in order.
#[derive(Debug)]
pub enum Action {
    /// Resolve the feature tokens and install whatever is missing.
    EnsureFeatures(Vec<Package>),
    /// Install concrete OS packages by name.
    InstallPackages(Vec<String>),
    /// Register an additional package repository.
    AddRepo(String),
    /// One-time ecosystem bootstrap for the current configuration.
    NpmConfigure,
    /// Run the ecosystem package manager: `exe` with the fixed argument
    /// list `args`.
    RunNpmInstall { exe: String, args: Vec<String> },
}

/// True when an action spawns an external installer process.
pub open spec fn is_process_action(a: Action) -> bool {
    a is RunNpmInstall
}

/// The build-lifetime bookkeeping state for one container build.
#[derive(Debug)]
pub struct Context {
    /// Names installed permanently into the container.
    pub packages: NameSet,
    /// Names installed only for the build, purgeable afterwards; disjoint
    /// from `packages`.
    pub build_deps: NameSet,
    /// The current ecosystem configuration.
    pub npm_settings: NpmConfig,
    /// Registered cache directories.
    pub cache_dirs: CacheDirs,
}

impl Context {
    /// The build-only set never holds a permanently-installed name.
    pub open spec fn sets_disjoint(&self) -> bool {
        forall|n: Seq<char>| self.packages@.contains(n) ==> !self.build_deps@.contains(n)
    }

    /// A fresh context: empty sets, default ecosystem configuration, no
    /// cache directories.
    pub fn new() -> (r: Context)
        ensures
            r.packages@ == Set::<Seq<char>>::empty(),
            r.build_deps@ == Set::<Seq<char>>::empty(),
            r.npm_settings.is_default(),
            r.cache_dirs@ == Map::<Seq<char>, Seq<char>>::empty(),
            r.sets_disjoint(),
    {
        Context {
            packages: NameSet::new(),
            build_deps: NameSet::new(),
            npm_settings: NpmConfig::default(),
            cache_dirs: CacheDirs::new(),
        }
    }

    /// Registers a cache directory under a logical name; registering the
    /// same name again is a no-op.
    pub fn add_cache_dir(&mut self, path: &str, name: &str)
        ensures
            final(self).packages == old(self).packages,
            final(self).build_deps == old(self).build_deps,
            final(self).npm_settings == old(self).npm_settings,
            final(self).cache_dirs@ == if old(self).cache_dirs@.dom().contains(name@) {
                old(self).cache_dirs@
            } else {
                old(self).cache_dirs@.insert(name@, path@)
            },
    {
        self.cache_dirs.register(name, path);
    }
}

} // verus!
