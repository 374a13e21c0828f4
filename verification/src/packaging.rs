//! The OS-package steps: permanent installation, build-only installation,
//! and repository registration.

use vstd::prelude::*;
use crate::context::{Action, Context};
use crate::digest::{Digest, FieldV, FieldValueV};
use crate::strutil::{clone_strings, lemma_take_succ_to_set, sort_lex, sorted_names};

verus! {

/// Installs OS packages permanently into the container.
#[derive(Debug)]
pub struct Install(pub Vec<String>);

/// Installs OS packages needed only while building; they may be purged
/// from the finished container.
#[derive(Debug)]
pub struct BuildDeps(pub Vec<String>);

/// Registers an additional package repository.
#[derive(Debug)]
pub struct Repo(pub String);

/// The digest fields of a package-list step.
pub open spec fn package_list_fields(names: Seq<Seq<char>>) -> Seq<FieldV> {
    seq![FieldV { key: "packages"@, value: FieldValueV::List(names) }]
}

/// The digest fields of a repository step.
pub open spec fn repo_fields(name: Seq<char>) -> Seq<FieldV> {
    seq![FieldV { key: "name"@, value: FieldValueV::Text(name) }]
}

impl Install {
    /// The stable step identifier.
    pub fn name(&self) -> (r: &'static str)
        ensures
            r@ == "Install"@,
    {
        "Install"
    }

    /// Mixes the sorted name list into the digest; only execution uses
    /// the literal order.
    pub fn hash(&self, hash: &mut Digest)
        ensures
            final(hash)@ == old(hash)@ + package_list_fields(sort_lex(self.0.deep_view())),
    {
        let sorted = sorted_names(&self.0);
        hash.field_list("packages", &sorted);
        proof {
            assert(hash@ =~= old(hash)@ + package_list_fields(sort_lex(self.0.deep_view())));
        }
    }

    /// Bookkeeping on every pass: every name becomes permanent and leaves
    /// the build-only set. Only an execute pass asks for the installation.
    pub fn build(&self, ctx: &mut Context, build: bool) -> (r: Vec<Action>)
        ensures
            final(ctx).packages@ == old(ctx).packages@.union(self.0.deep_view().to_set()),
            final(ctx).build_deps@ == old(ctx).build_deps@.difference(self.0.deep_view().to_set()),
            final(ctx).npm_settings == old(ctx).npm_settings,
            final(ctx).cache_dirs == old(ctx).cache_dirs,
            old(ctx).sets_disjoint() ==> final(ctx).sets_disjoint(),
            build ==> r@.len() == 1 && (r@[0] matches Action::InstallPackages(ns)
                && ns.deep_view() == self.0.deep_view()),
            !build ==> r@.len() == 0,
    {
        let ghost names = self.0.deep_view();
        let mut i: usize = 0;
        proof {
            assert(old(ctx).packages@.union(names.take(0).to_set()) =~= old(ctx).packages@);
            assert(old(ctx).build_deps@.difference(names.take(0).to_set()) =~= old(
                ctx,
            ).build_deps@);
        }
        while i < self.0.len()
            invariant
                i <= self.0.len(),
                names == self.0.deep_view(),
                names.len() == self.0@.len(),
                forall|j: int| 0 <= j < names.len() ==> names[j] == self.0@[j]@,
                ctx.packages@ == old(ctx).packages@.union(names.take(i as int).to_set()),
                ctx.build_deps@ == old(ctx).build_deps@.difference(names.take(i as int).to_set()),
                ctx.npm_settings == old(ctx).npm_settings,
                ctx.cache_dirs == old(ctx).cache_dirs,
            decreases self.0.len() - i,
        {
            ctx.packages.insert(self.0[i].clone());
            ctx.build_deps.remove(self.0[i].as_str());
            proof {
                lemma_take_succ_to_set(names, i as int);
                assert(ctx.packages@ =~= old(ctx).packages@.union(names.take(i + 1).to_set()));
                assert(ctx.build_deps@ =~= old(ctx).build_deps@.difference(
                    names.take(i + 1).to_set(),
                ));
            }
            i = i + 1;
        }
        proof {
            assert(names.take(names.len() as int) =~= names);
        }
        if build {
            let mut r: Vec<Action> = Vec::new();
            r.push(Action::InstallPackages(clone_strings(&self.0)));
            r
        } else {
            Vec::new()
        }
    }

    /// No step variant declares a predecessor beyond recipe order.
    pub fn is_dependent_on(&self) -> (r: Option<&str>)
        ensures
            r is None,
    {
        None
    }
}

impl BuildDeps {
    /// The stable step identifier.
    pub fn name(&self) -> (r: &'static str)
        ensures
            r@ == "BuildDeps"@,
    {
        "BuildDeps"
    }

    /// Mixes the sorted name list into the digest; only execution uses
    /// the literal order.
    pub fn hash(&self, hash: &mut Digest)
        ensures
            final(hash)@ == old(hash)@ + package_list_fields(sort_lex(self.0.deep_view())),
    {
        let sorted = sorted_names(&self.0);
        hash.field_list("packages", &sorted);
        proof {
            assert(hash@ =~= old(hash)@ + package_list_fields(sort_lex(self.0.deep_view())));
        }
    }

    /// On an execute pass, records as build-only every name that is not
    /// already permanent, and asks for the installation. A dry pass leaves
    /// the context untouched.
    pub fn build(&self, ctx: &mut Context, build: bool) -> (r: Vec<Action>)
        ensures
            !build ==> *final(ctx) == *old(ctx) && r@.len() == 0,
            build ==> {
                &&& final(ctx).packages == old(ctx).packages
                &&& final(ctx).build_deps@ == old(ctx).build_deps@.union(
                    self.0.deep_view().to_set().difference(old(ctx).packages@),
                )
                &&& final(ctx).npm_settings == old(ctx).npm_settings
                &&& final(ctx).cache_dirs == old(ctx).cache_dirs
                &&& r@.len() == 1
                &&& (r@[0] matches Action::InstallPackages(ns) && ns.deep_view()
                    == self.0.deep_view())
            },
            old(ctx).sets_disjoint() ==> final(ctx).sets_disjoint(),
    {
        if !build {
            return Vec::new();
        }
        let ghost names = self.0.deep_view();
        let mut i: usize = 0;
        proof {
            assert(old(ctx).build_deps@.union(names.take(0).to_set().difference(
                old(ctx).packages@,
            )) =~= old(ctx).build_deps@);
        }
        while i < self.0.len()
            invariant
                i <= self.0.len(),
                names == self.0.deep_view(),
                names.len() == self.0@.len(),
                forall|j: int| 0 <= j < names.len() ==> names[j] == self.0@[j]@,
                ctx.packages == old(ctx).packages,
                ctx.build_deps@ == old(ctx).build_deps@.union(
                    names.take(i as int).to_set().difference(old(ctx).packages@),
                ),
                ctx.npm_settings == old(ctx).npm_settings,
                ctx.cache_dirs == old(ctx).cache_dirs,
            decreases self.0.len() - i,
        {
            if !ctx.packages.contains(self.0[i].as_str()) {
                ctx.build_deps.insert(self.0[i].clone());
            }
            proof {
                lemma_take_succ_to_set(names, i as int);
                assert(ctx.build_deps@ =~= old(ctx).build_deps@.union(
                    names.take(i + 1).to_set().difference(old(ctx).packages@),
                ));
            }
            i = i + 1;
        }
        proof {
            assert(names.take(names.len() as int) =~= names);
        }
        let mut r: Vec<Action> = Vec::new();
        r.push(Action::InstallPackages(clone_strings(&self.0)));
        r
    }

    /// No step variant declares a predecessor beyond recipe order.
    pub fn is_dependent_on(&self) -> (r: Option<&str>)
        ensures
            r is None,
    {
        None
    }
}

impl Repo {
    /// The stable step identifier.
    pub fn name(&self) -> (r: &'static str)
        ensures
            r@ == "Repo"@,
    {
        "Repo"
    }

    /// Mixes the repository identifier into the digest.
    pub fn hash(&self, hash: &mut Digest)
        ensures
            final(hash)@ == old(hash)@ + repo_fields(self.0@),
    {
        hash.field("name", self.0.as_str());
        proof {
            assert(hash@ =~= old(hash)@ + repo_fields(self.0@));
        }
    }

    /// No bookkeeping; an execute pass asks for the repository to be
    /// registered.
    pub fn build(&self, ctx: &mut Context, build: bool) -> (r: Vec<Action>)
        ensures
            *final(ctx) == *old(ctx),
            build ==> r@.len() == 1 && (r@[0] matches Action::AddRepo(n) && n == self.0),
            !build ==> r@.len() == 0,
    {
        let _ = ctx;
        if build {
            let mut r: Vec<Action> = Vec::new();
            r.push(Action::AddRepo(self.0.clone()));
            r
        } else {
            Vec::new()
        }
    }

    /// No step variant declares a predecessor beyond recipe order.
    pub fn is_dependent_on(&self) -> (r: Option<&str>)
        ensures
            r is None,
    {
        None
    }
}

} // verus!
