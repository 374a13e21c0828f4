//! The ecosystem steps: configuring the package manager, installing
//! packages by name, and installing the dependencies named by a manifest.
//! Steps update the context's bookkeeping and return the actions the
//! driver must perform; only an execute pass yields installer actions.

use vstd::prelude::*;
use crate::build_step::{StepError, StepErrorV};
use crate::context::{Action, Context, is_process_action};
use crate::digest::{Digest, FieldV, FieldValueV};
use crate::manifest::{DepEntryV, DepValue, DepValueV, Manifest, ManifestEntryV, SectionValue,
    SectionValueV, manifest_find};
use crate::packages::{Package, dedup, dedup_features, feature_of, features_of, parse_feature};
use crate::strutil::{package_spec, spec_pair};

verus! {

/// Ecosystem configuration: whether to bootstrap the runtime, and which
/// executable runs ecosystem commands.
#[derive(Debug)]
pub struct NpmConfig {
    pub install_node: bool,
    pub npm_exe: String,
}

impl NpmConfig {
    /// The configuration used before any configuration step ran.
    pub open spec fn is_default(&self) -> bool {
        self.install_node == true && self.npm_exe@ == "npm"@
    }
}

impl Default for NpmConfig {
    /// Bootstrap the runtime, and run commands through `npm`.
    fn default() -> (r: NpmConfig)
        ensures
            r.is_default(),
    {
        NpmConfig { install_node: true, npm_exe: "npm".to_owned() }
    }
}

/// The tokens that must be satisfied before the ecosystem installer runs:
/// always the baseline build tools; the runtime, its headers and the
/// package manager when the bootstrap toggle is on.
pub open spec fn base_features(install_node: bool) -> Seq<Package> {
    seq![Package::BuildEssential] + if install_node {
        seq![Package::NodeJs, Package::NodeJsDev, Package::Npm]
    } else {
        Seq::empty()
    }
}

/// The full token request for one ecosystem step: the base tokens plus
/// whatever each specification string implies.
pub open spec fn scan_features_spec(install_node: bool, pkgs: Seq<Seq<char>>) -> Seq<Package> {
    base_features(install_node) + features_of(pkgs)
}

/// Computes the token request for a list of specification strings.
pub fn scan_features(settings: &NpmConfig, pkgs: &Vec<String>) -> (r: Vec<Package>)
    ensures
        r@ == scan_features_spec(settings.install_node, pkgs.deep_view()),
{
    let mut res: Vec<Package> = Vec::new();
    res.push(Package::BuildEssential);
    if settings.install_node {
        res.push(Package::NodeJs);
        res.push(Package::NodeJsDev);
        res.push(Package::Npm);
    }
    proof {
        assert(res@ =~= base_features(settings.install_node));
        assert(features_of(pkgs.deep_view().take(0)) =~= Seq::<Package>::empty());
        assert(res@ =~= base_features(settings.install_node) + features_of(
            pkgs.deep_view().take(0),
        ));
    }
    let mut i: usize = 0;
    while i < pkgs.len()
        invariant
            i <= pkgs.len(),
            pkgs.deep_view().len() == pkgs@.len(),
            forall|j: int| 0 <= j < pkgs@.len() ==> pkgs.deep_view()[j] == pkgs@[j]@,
            res@ == base_features(settings.install_node) + features_of(
                pkgs.deep_view().take(i as int),
            ),
        decreases pkgs.len() - i,
    {
        parse_feature(pkgs[i].as_str(), &mut res);
        proof {
            assert(pkgs.deep_view().take(i + 1).drop_last() =~= pkgs.deep_view().take(i as int));
            assert(pkgs.deep_view().take(i + 1).last() == pkgs.deep_view()[i as int]);
            assert(res@ =~= base_features(settings.install_node) + features_of(
                pkgs.deep_view().take(i + 1),
            ));
        }
        i = i + 1;
    }
    proof {
        assert(pkgs.deep_view().take(pkgs@.len() as int) =~= pkgs.deep_view());
    }
    res
}

/// The request always holds the baseline token, and holds the runtime,
/// header and package-manager tokens exactly when the bootstrap toggle is
/// on.
pub proof fn lemma_scan_features_tokens(install_node: bool, pkgs: Seq<Seq<char>>)
    ensures
        scan_features_spec(install_node, pkgs).contains(Package::BuildEssential),
        scan_features_spec(install_node, pkgs).contains(Package::NodeJs) == install_node,
        scan_features_spec(install_node, pkgs).contains(Package::NodeJsDev) == install_node,
        scan_features_spec(install_node, pkgs).contains(Package::Npm) == install_node,
{
    let s = scan_features_spec(install_node, pkgs);
    assert(s[0] == Package::BuildEssential);
    if install_node {
        assert(s[1] == Package::NodeJs);
        assert(s[2] == Package::NodeJsDev);
        assert(s[3] == Package::Npm);
    } else {
        lemma_features_of_only_git(pkgs);
        assert forall|p: Package| s.contains(p) implies p == Package::BuildEssential || p
            == Package::Git by {
            let i = choose|i: int| 0 <= i < s.len() && s[i] == p;
            if i >= 1 {
                assert(features_of(pkgs)[i - 1] == p);
                assert(features_of(pkgs).contains(p));
            }
        }
    }
}

/// Specification strings can only ever request a version-control client.
proof fn lemma_features_of_only_git(pkgs: Seq<Seq<char>>)
    ensures
        forall|p: Package| features_of(pkgs).contains(p) ==> p == Package::Git,
    decreases pkgs.len(),
{
    if pkgs.len() > 0 {
        lemma_features_of_only_git(pkgs.drop_last());
        assert forall|p: Package| features_of(pkgs).contains(p) implies p == Package::Git by {
            let f = features_of(pkgs);
            let i = choose|i: int| 0 <= i < f.len() && f[i] == p;
            let d = features_of(pkgs.drop_last());
            if i < d.len() {
                assert(d[i] == p);
                assert(d.contains(p));
            } else {
                assert(feature_of(pkgs.last())[i - d.len()] == p);
            }
        }
    }
}

/// Turns the token request into one driver action, deduplicated before it
/// is handed to the distribution backend.
pub fn ensure_npm(features: &Vec<Package>) -> (a: Action)
    ensures
        a matches Action::EnsureFeatures(f) && f@ == dedup_features(features@),
{
    Action::EnsureFeatures(dedup(features))
}

/// The fixed installer argument list: a global install, run as root,
/// using the shared cache path, then the literal specifications.
pub open spec fn npm_args_spec(specs: Seq<Seq<char>>) -> Seq<Seq<char>> {
    seq!["install"@, "--global"@, "--user=root"@, "--cache=/tmp/npm-cache"@] + specs
}

/// Builds the fixed installer argument list.
pub fn npm_install_args(specs: &Vec<String>) -> (r: Vec<String>)
    ensures
        r.deep_view() == npm_args_spec(specs.deep_view()),
{
    let mut r: Vec<String> = Vec::new();
    r.push("install".to_owned());
    r.push("--global".to_owned());
    r.push("--user=root".to_owned());
    r.push("--cache=/tmp/npm-cache".to_owned());
    proof {
        assert(r.deep_view() =~= npm_args_spec(specs.deep_view().take(0)));
    }
    let mut i: usize = 0;
    while i < specs.len()
        invariant
            i <= specs.len(),
            specs.deep_view().len() == specs@.len(),
            forall|j: int| 0 <= j < specs@.len() ==> specs.deep_view()[j] == specs@[j]@,
            r.deep_view() == npm_args_spec(specs.deep_view().take(i as int)),
        decreases specs.len() - i,
    {
        let ghost prev = r.deep_view();
        r.push(specs[i].clone());
        proof {
            assert(r.deep_view() =~= prev.push(specs.deep_view()[i as int]));
            assert(r.deep_view() =~= npm_args_spec(specs.deep_view().take(i + 1)));
        }
        i = i + 1;
    }
    proof {
        assert(specs.deep_view().take(specs@.len() as int) =~= specs.deep_view());
    }
    r
}

/// Registers the shared cache directory, computes and requests the needed
/// features, and, for a non-empty specification list, asks for one
/// installer run with the fixed argument list. An empty list asks for no
/// process at all.
pub fn npm_install(ctx: &mut Context, pkgs: &Vec<String>) -> (r: Vec<Action>)
    ensures
        final(ctx).packages == old(ctx).packages,
        final(ctx).build_deps == old(ctx).build_deps,
        final(ctx).npm_settings == old(ctx).npm_settings,
        final(ctx).cache_dirs@ == if old(ctx).cache_dirs@.dom().contains("npm-cache"@) {
            old(ctx).cache_dirs@
        } else {
            old(ctx).cache_dirs@.insert("npm-cache"@, "/tmp/npm-cache"@)
        },
        r@.len() == if pkgs.deep_view().len() == 0 {
            1int
        } else {
            2int
        },
        r@[0] matches Action::EnsureFeatures(f) && f@ == dedup_features(
            scan_features_spec(old(ctx).npm_settings.install_node, pkgs.deep_view()),
        ),
        pkgs.deep_view().len() > 0 ==> (r@[1] matches Action::RunNpmInstall { exe, args }
            && exe == old(ctx).npm_settings.npm_exe && args.deep_view() == npm_args_spec(
            pkgs.deep_view(),
        )),
        pkgs.deep_view().len() == 0 ==> forall|i: int|
            0 <= i < r@.len() ==> !is_process_action(r@[i]),
{
    ctx.add_cache_dir("/tmp/npm-cache", "npm-cache");
    let features = scan_features(&ctx.npm_settings, pkgs);
    let mut actions: Vec<Action> = Vec::new();
    actions.push(ensure_npm(&features));
    if pkgs.len() == 0 {
        return actions;
    }
    let args = npm_install_args(pkgs);
    let exe = ctx.npm_settings.npm_exe.clone();
    actions.push(Action::RunNpmInstall { exe, args });
    actions
}

/// Installs ecosystem packages given literally in the recipe.
#[derive(Debug)]
pub struct NpmInstall(pub Vec<String>);

/// The digest fields of an install-by-name step.
pub open spec fn npm_install_fields(specs: Seq<Seq<char>>) -> Seq<FieldV> {
    seq![FieldV { key: "packages"@, value: FieldValueV::List(specs) }]
}

impl NpmInstall {
    /// The stable step identifier.
    pub fn name(&self) -> (r: &'static str)
        ensures
            r@ == "NpmInstall"@,
    {
        "NpmInstall"
    }

    /// Mixes the literal specification list into the digest.
    pub fn hash(&self, hash: &mut Digest)
        ensures
            final(hash)@ == old(hash)@ + npm_install_fields(self.0.deep_view()),
    {
        hash.field_list("packages", &self.0);
        proof {
            assert(hash@ =~= old(hash)@ + npm_install_fields(self.0.deep_view()));
        }
    }

    /// Always asks for the one-time ecosystem bootstrap; on an execute
    /// pass additionally performs the installation.
    pub fn build(&self, ctx: &mut Context, build: bool) -> (r: Vec<Action>)
        ensures
            !build ==> *final(ctx) == *old(ctx) && r@ =~= seq![Action::NpmConfigure],
            build ==> {
                &&& final(ctx).packages == old(ctx).packages
                &&& final(ctx).build_deps == old(ctx).build_deps
                &&& final(ctx).npm_settings == old(ctx).npm_settings
                &&& final(ctx).cache_dirs@ == if old(ctx).cache_dirs@.dom().contains(
                    "npm-cache"@,
                ) {
                    old(ctx).cache_dirs@
                } else {
                    old(ctx).cache_dirs@.insert("npm-cache"@, "/tmp/npm-cache"@)
                }
                &&& r@.len() == if self.0.deep_view().len() == 0 {
                    2int
                } else {
                    3int
                }
                &&& r@[0] == Action::NpmConfigure
                &&& (r@[1] matches Action::EnsureFeatures(f) && f@ == dedup_features(
                    scan_features_spec(old(ctx).npm_settings.install_node, self.0.deep_view()),
                ))
                &&& self.0.deep_view().len() > 0 ==> (r@[2] matches Action::RunNpmInstall {
                    exe,
                    args,
                } && exe == old(ctx).npm_settings.npm_exe && args.deep_view() == npm_args_spec(
                    self.0.deep_view(),
                ))
            },
            !build ==> forall|i: int| 0 <= i < r@.len() ==> !is_process_action(r@[i]),
            self.0.deep_view().len() == 0 ==> forall|i: int|
                0 <= i < r@.len() ==> !is_process_action(r@[i]),
    {
        let mut actions: Vec<Action> = Vec::new();
        actions.push(Action::NpmConfigure);
        if build {
            let mut more = npm_install(ctx, &self.0);
            let ghost m = more@;
            actions.append(&mut more);
            proof {
                assert(actions@ =~= seq![Action::NpmConfigure] + m);
            }
        }
        actions
    }

    /// No step variant declares a predecessor beyond recipe order.
    pub fn is_dependent_on(&self) -> (r: Option<&str>)
        ensures
            r is None,
    {
        None
    }
}

/// The digest fields of a configuration step.
pub open spec fn npm_config_fields(install_node: bool, exe: Seq<char>) -> Seq<FieldV> {
    seq![
        FieldV { key: "npm_exe"@, value: FieldValueV::Text(exe) },
        FieldV { key: "install_node"@, value: FieldValueV::Flag(install_node) },
    ]
}

impl NpmConfig {
    /// The stable step identifier.
    pub fn name(&self) -> (r: &'static str)
        ensures
            r@ == "NpmConfig"@,
    {
        "NpmConfig"
    }

    /// Mixes both configuration fields into the digest.
    pub fn hash(&self, hash: &mut Digest)
        ensures
            final(hash)@ == old(hash)@ + npm_config_fields(self.install_node, self.npm_exe@),
    {
        hash.field("npm_exe", self.npm_exe.as_str());
        hash.field_bool("install_node", self.install_node);
        proof {
            assert(hash@ =~= old(hash)@ + npm_config_fields(self.install_node, self.npm_exe@));
        }
    }

    /// Replaces the stored ecosystem configuration; pure bookkeeping, the
    /// same on a dry pass as on an execute pass.
    pub fn build(&self, ctx: &mut Context, _build: bool) -> (r: Vec<Action>)
        ensures
            final(ctx).npm_settings.install_node == self.install_node,
            final(ctx).npm_settings.npm_exe == self.npm_exe,
            final(ctx).packages == old(ctx).packages,
            final(ctx).build_deps == old(ctx).build_deps,
            final(ctx).cache_dirs == old(ctx).cache_dirs,
            r@.len() == 0,
    {
        ctx.npm_settings = NpmConfig {
            install_node: self.install_node,
            npm_exe: self.npm_exe.clone(),
        };
        Vec::new()
    }

    /// No step variant declares a predecessor beyond recipe order.
    pub fn is_dependent_on(&self) -> (r: Option<&str>)
        ensures
            r is None,
    {
        None
    }
}

/// Every leaf of the section is a string.
pub open spec fn all_text(s: Seq<DepEntryV>) -> bool {
    forall|i: int| 0 <= i < s.len() ==> s[i].value is Text
}

/// The index of the first entry whose leaf is not a string.
pub open spec fn first_bad(s: Seq<DepEntryV>) -> int
    decreases s.len(),
{
    if s.len() == 0 {
        0
    } else if !(s[0].value is Text) {
        0
    } else {
        1 + first_bad(s.skip(1))
    }
}

proof fn lemma_first_bad(s: Seq<DepEntryV>)
    ensures
        0 <= first_bad(s) <= s.len(),
        forall|j: int| 0 <= j < first_bad(s) ==> s[j].value is Text,
        first_bad(s) < s.len() ==> !(s[first_bad(s)].value is Text),
    decreases s.len(),
{
    if s.len() > 0 && s[0].value is Text {
        lemma_first_bad(s.skip(1));
        assert forall|j: int| 0 <= j < first_bad(s) implies s[j].value is Text by {
            if j >= 1 {
                assert(s.skip(1)[j - 1] == s[j]);
            }
        }
        if first_bad(s) < s.len() {
            assert(s.skip(1)[first_bad(s) - 1] == s[first_bad(s)]);
        }
    }
}

proof fn lemma_first_bad_is(s: Seq<DepEntryV>, p: int)
    requires
        0 <= p <= s.len(),
        forall|j: int| 0 <= j < p ==> s[j].value is Text,
        p < s.len() ==> !(s[p].value is Text),
    ensures
        first_bad(s) == p,
{
    lemma_first_bad(s);
    let q = first_bad(s);
    if q < p {
        assert(s[q].value is Text);
    } else if p < q {
        assert(s[p].value is Text);
    }
}

/// The `name@version` specifications of a section's string entries, in
/// entry order.
pub open spec fn dep_specs(s: Seq<DepEntryV>) -> Seq<Seq<char>>
    decreases s.len(),
{
    if s.len() == 0 {
        Seq::empty()
    } else {
        dep_specs(s.drop_last()) + match s.last().value {
            DepValueV::Text(v) => seq![spec_pair(s.last().key, v)],
            DepValueV::Other(_) => Seq::empty(),
        }
    }
}

/// The tokens a section's string entries imply, in entry order.
pub open spec fn dep_feats(s: Seq<DepEntryV>) -> Seq<Package>
    decreases s.len(),
{
    if s.len() == 0 {
        Seq::empty()
    } else {
        dep_feats(s.drop_last()) + match s.last().value {
            DepValueV::Text(v) => feature_of(v),
            DepValueV::Other(_) => Seq::empty(),
        }
    }
}

/// The text a leaf carries: a version string, or the stored rendering of
/// a non-string value.
pub open spec fn leaf_text(v: DepValueV) -> Seq<char> {
    match v {
        DepValueV::Text(t) => t,
        DepValueV::Other(t) => t,
    }
}

/// The outcome of scanning sections: the collected specifications and
/// tokens, or the first fatal incompatibility.
pub enum ScanOutcome {
    Found(Seq<Seq<char>>, Seq<Package>),
    Fail(StepErrorV),
}

/// What scanning one section yields: nothing for an absent key, a fatal
/// error for a present non-mapping or a non-string leaf, the entry
/// specifications and tokens otherwise.
pub open spec fn scan_section(m: Seq<ManifestEntryV>, key: Seq<char>) -> ScanOutcome {
    match manifest_find(m, key) {
        Option::None => ScanOutcome::Found(Seq::empty(), Seq::empty()),
        Option::Some(SectionValueV::NotMapping) => ScanOutcome::Fail(StepErrorV::NotMapping(key)),
        Option::Some(SectionValueV::Mapping(s)) => if all_text(s) {
            ScanOutcome::Found(dep_specs(s), dep_feats(s))
        } else {
            ScanOutcome::Fail(
                StepErrorV::WrongVersion(s[first_bad(s)].key, leaf_text(s[first_bad(s)].value)),
            )
        },
    }
}

/// Scanning a list of sections in order, stopping at the first failure.
pub open spec fn scan_sections(m: Seq<ManifestEntryV>, keys: Seq<Seq<char>>) -> ScanOutcome
    decreases keys.len(),
{
    if keys.len() == 0 {
        ScanOutcome::Found(Seq::empty(), Seq::empty())
    } else {
        match scan_section(m, keys[0]) {
            ScanOutcome::Fail(e) => ScanOutcome::Fail(e),
            ScanOutcome::Found(sp, ft) => match scan_sections(m, keys.skip(1)) {
                ScanOutcome::Fail(e) => ScanOutcome::Fail(e),
                ScanOutcome::Found(sp2, ft2) => ScanOutcome::Found(sp + sp2, ft + ft2),
            },
        }
    }
}

/// Prefixes already-collected specifications and tokens onto an outcome.
pub open spec fn scan_chain(sp: Seq<Seq<char>>, ft: Seq<Package>, rest: ScanOutcome) -> ScanOutcome {
    match rest {
        ScanOutcome::Fail(e) => ScanOutcome::Fail(e),
        ScanOutcome::Found(sp2, ft2) => ScanOutcome::Found(sp + sp2, ft + ft2),
    }
}

/// Scans one manifest section: absent keys are silently empty; a present
/// non-mapping value and a non-string leaf are fatal, the latter naming
/// the offending package key. String entries append their `name@version`
/// specification and implied tokens.
pub fn scan_dic(data: &Manifest, key: &str, packages: &mut Vec<String>, features: &mut Vec<
    Package,
>) -> (r: Result<(), StepError>)
    ensures
        match scan_section(data@, key@) {
            ScanOutcome::Found(sp, ft) => r is Ok && final(packages).deep_view() == old(
                packages,
            ).deep_view() + sp && final(features)@ == old(features)@ + ft,
            ScanOutcome::Fail(e) => r matches Err(err) && err@ == e,
        },
        (manifest_find(data@, key@) matches Option::Some(SectionValueV::NotMapping))
            ==> final(packages)@ == old(packages)@ && final(features)@ == old(features)@,
        manifest_find(data@, key@) matches Option::Some(SectionValueV::Mapping(s)) ==> (!all_text(
            s,
        ) ==> final(packages).deep_view() == old(packages).deep_view() + dep_specs(
            s.take(first_bad(s)),
        ) && final(features)@ == old(features)@ + dep_feats(s.take(first_bad(s)))),
{
    let found = data.find(key);
    match found {
        Option::None => {
            proof {
                assert(final(packages).deep_view() =~= old(packages).deep_view()
                    + Seq::<Seq<char>>::empty());
                assert(final(features)@ =~= old(features)@ + Seq::<Package>::empty());
            }
            Ok(())
        },
        Option::Some(v @ SectionValue::NotMapping) => {
            proof {
                assert(manifest_find(data@, key@) == Option::Some(v@));
            }
            Err(StepError::NotMapping(key.to_owned()))
        },
        Option::Some(v @ SectionValue::Mapping(sec)) => {
            let ghost s = sec@;
            proof {
                assert(manifest_find(data@, key@) == Option::Some(v@));
                assert(v@ == SectionValueV::Mapping(s));
            }
            let mut i: usize = 0;
            proof {
                assert(packages.deep_view() =~= old(packages).deep_view() + dep_specs(s.take(0)));
                assert(features@ =~= old(features)@ + dep_feats(s.take(0)));
            }
            while i < sec.entries.len()
                invariant
                    i <= sec.entries.len(),
                    s == sec@,
                    s.len() == sec.entries@.len(),
                    forall|j: int| 0 <= j < s.len() ==> s[j] == sec.entries@[j]@,
                    manifest_find(data@, key@) == Option::Some(SectionValueV::Mapping(s)),
                    forall|j: int| 0 <= j < i ==> s[j].value is Text,
                    packages.deep_view() == old(packages).deep_view() + dep_specs(
                        s.take(i as int),
                    ),
                    features@ == old(features)@ + dep_feats(s.take(i as int)),
                decreases sec.entries.len() - i,
            {
                match &sec.entries[i].value {
                    DepValue::Text(v) => {
                        parse_feature(v.as_str(), features);
                        let ghost prev = packages.deep_view();
                        packages.push(package_spec(&sec.entries[i].key, v));
                        proof {
                            assert(s.take(i + 1).drop_last() =~= s.take(i as int));
                            assert(s.take(i + 1).last() == s[i as int]);
                            assert(packages.deep_view() =~= prev.push(
                                spec_pair(s[i as int].key, v@),
                            ));
                            assert(packages.deep_view() =~= old(packages).deep_view() + dep_specs(
                                s.take(i + 1),
                            ));
                            assert(features@ =~= old(features)@ + dep_feats(s.take(i + 1)));
                        }
                    },
                    DepValue::Other(txt) => {
                        proof {
                            lemma_first_bad_is(s, i as int);
                            assert(!(s[i as int].value is Text));
                            assert(!all_text(s));
                            assert(manifest_find(data@, key@) == Option::Some(
                                SectionValueV::Mapping(s),
                            ));
                            assert(scan_section(data@, key@) == ScanOutcome::Fail(
                                StepErrorV::WrongVersion(s[i as int].key, leaf_text(
                                    s[i as int].value,
                                )),
                            ));
                        }
                        return Err(StepError::WrongVersion(sec.entries[i].key.clone(),
                            txt.clone()));
                    },
                }
                i = i + 1;
            }
            proof {
                assert(s.take(s.len() as int) =~= s);
                assert(all_text(s));
            }
            Ok(())
        },
    }
}

/// Installs the dependencies named by an ecosystem manifest.
#[derive(Debug)]
pub struct NpmDependencies {
    /// The manifest path, relative to the project root.
    pub file: String,
    /// Scan the plain dependency section.
    pub package: bool,
    /// Scan the development-dependency section.
    pub dev: bool,
    /// Scan the peer-dependency section.
    pub peer: bool,
    /// Scan both historically-aliased bundled-dependency sections.
    pub bundled: bool,
    /// Scan the optional-dependency section.
    pub optional: bool,
}

/// The section keys a toggle selection scans, in scan order; the bundled
/// toggle covers two aliased keys.
pub open spec fn enabled_keys(package: bool, dev: bool, peer: bool, bundled: bool, optional: bool)
    -> Seq<Seq<char>> {
    (if package {
        seq!["dependencies"@]
    } else {
        Seq::empty()
    }) + (if dev {
        seq!["devDependencies"@]
    } else {
        Seq::empty()
    }) + (if peer {
        seq!["peerDependencies"@]
    } else {
        Seq::empty()
    }) + (if bundled {
        seq!["bundledDependencies"@, "bundleDependencies"@]
    } else {
        Seq::empty()
    }) + (if optional {
        seq!["optionalDependencies"@]
    } else {
        Seq::empty()
    })
}

impl NpmDependencies {
    /// The keys of the sections this step scans.
    pub fn section_keys(&self) -> (r: Vec<String>)
        ensures
            r.deep_view() == enabled_keys(self.package, self.dev, self.peer, self.bundled,
                self.optional),
    {
        let mut r: Vec<String> = Vec::new();
        if self.package {
            r.push("dependencies".to_owned());
        }
        if self.dev {
            r.push("devDependencies".to_owned());
        }
        if self.peer {
            r.push("peerDependencies".to_owned());
        }
        if self.bundled {
            r.push("bundledDependencies".to_owned());
            r.push("bundleDependencies".to_owned());
        }
        if self.optional {
            r.push("optionalDependencies".to_owned());
        }
        proof {
            assert(r.deep_view() =~= enabled_keys(self.package, self.dev, self.peer, self.bundled,
                self.optional));
        }
        r
    }
}

/// Scans the enabled manifest sections, requests the needed features, and
/// asks for one installer run when the collected specification list is
/// non-empty; an empty list asks for no process. A fatal scan error is
/// returned after the cache directory was registered but before any
/// feature or installer action is produced.
pub fn npm_deps(ctx: &mut Context, info: &NpmDependencies, data: &Manifest) -> (r: Result<
    Vec<Action>,
    StepError,
>)
    ensures
        final(ctx).packages == old(ctx).packages,
        final(ctx).build_deps == old(ctx).build_deps,
        final(ctx).npm_settings == old(ctx).npm_settings,
        final(ctx).cache_dirs@ == if old(ctx).cache_dirs@.dom().contains("npm-cache"@) {
            old(ctx).cache_dirs@
        } else {
            old(ctx).cache_dirs@.insert("npm-cache"@, "/tmp/npm-cache"@)
        },
        match scan_sections(data@, enabled_keys(info.package, info.dev, info.peer, info.bundled,
            info.optional)) {
            ScanOutcome::Fail(e) => r matches Err(err) && err@ == e,
            ScanOutcome::Found(sp, ft) => r matches Ok(actions) && {
                &&& actions@.len() == if sp.len() == 0 {
                    1int
                } else {
                    2int
                }
                &&& (actions@[0] matches Action::EnsureFeatures(f) && f@ == dedup_features(
                    base_features(old(ctx).npm_settings.install_node) + ft,
                ))
                &&& sp.len() > 0 ==> (actions@[1] matches Action::RunNpmInstall { exe, args }
                    && exe == old(ctx).npm_settings.npm_exe && args.deep_view() == npm_args_spec(
                    sp,
                ))
                &&& sp.len() == 0 ==> forall|i: int|
                    0 <= i < actions@.len() ==> !is_process_action(actions@[i])
            },
        },
{
    ctx.add_cache_dir("/tmp/npm-cache", "npm-cache");
    let no_specs: Vec<String> = Vec::new();
    let mut features = scan_features(&ctx.npm_settings, &no_specs);
    let ghost node = ctx.npm_settings.install_node;
    proof {
        assert(no_specs.deep_view() =~= Seq::<Seq<char>>::empty());
        assert(features@ =~= base_features(node) + Seq::<Package>::empty());
        assert(features@ =~= base_features(node));
    }
    let mut packages: Vec<String> = Vec::new();
    let keys = info.section_keys();
    let ghost kv = keys.deep_view();
    let ghost m = data@;
    let ghost goal = scan_sections(m, kv);
    let mut k: usize = 0;
    proof {
        assert(packages.deep_view() =~= Seq::<Seq<char>>::empty());
        assert(kv.skip(0) =~= kv);
        match scan_sections(m, kv) {
            ScanOutcome::Found(s2, f2) => {
                assert(Seq::<Seq<char>>::empty() + s2 =~= s2);
                assert(Seq::<Package>::empty() + f2 =~= f2);
            },
            ScanOutcome::Fail(_) => {},
        }
        assert(scan_chain(packages.deep_view(), Seq::empty(), scan_sections(m, kv.skip(0)))
            == goal);
    }
    let ghost mut ft_acc: Seq<Package> = Seq::empty();
    while k < keys.len()
        invariant
            k <= keys.len(),
            kv == keys.deep_view(),
            kv.len() == keys@.len(),
            forall|j: int| 0 <= j < kv.len() ==> kv[j] == keys@[j]@,
            m == data@,
            kv == enabled_keys(info.package, info.dev, info.peer, info.bundled, info.optional),
            goal == scan_sections(m, kv),
            features@ == base_features(node) + ft_acc,
            scan_chain(packages.deep_view(), ft_acc, scan_sections(m, kv.skip(k as int))) == goal,
            ctx.packages == old(ctx).packages,
            ctx.build_deps == old(ctx).build_deps,
            ctx.npm_settings == old(ctx).npm_settings,
            node == ctx.npm_settings.install_node,
            ctx.cache_dirs@ == if old(ctx).cache_dirs@.dom().contains("npm-cache"@) {
                old(ctx).cache_dirs@
            } else {
                old(ctx).cache_dirs@.insert("npm-cache"@, "/tmp/npm-cache"@)
            },
        decreases keys.len() - k,
    {
        let ghost pre_sp = packages.deep_view();
        let ghost pre_ft = ft_acc;
        proof {
            assert(kv.skip(k as int)[0] == kv[k as int]);
            assert(kv.skip(k as int).skip(1) =~= kv.skip(k + 1));
        }
        let res = scan_dic(data, keys[k].as_str(), &mut packages, &mut features);
        match res {
            Result::Err(e) => {
                proof {
                    assert(scan_section(m, kv[k as int]) matches ScanOutcome::Fail(ev) && e@ == ev);
                    assert(scan_sections(m, kv.skip(k as int)) == ScanOutcome::Fail(e@));
                    assert(goal == ScanOutcome::Fail(e@));
                    assert(scan_sections(data@, enabled_keys(info.package, info.dev, info.peer,
                        info.bundled, info.optional)) == ScanOutcome::Fail(e@));
                }
                return Err(e);
            },
            Result::Ok(_) => {
                proof {
                    let outcome = scan_section(m, kv[k as int]);
                    match outcome {
                        ScanOutcome::Found(sp1, ft1) => {
                            ft_acc = pre_ft + ft1;
                            assert(packages.deep_view() == pre_sp + sp1);
                            assert(features@ =~= base_features(node) + ft_acc);
                            match scan_sections(m, kv.skip(k + 1)) {
                                ScanOutcome::Found(s2, f2) => {
                                    assert((pre_sp + sp1) + s2 =~= pre_sp + (sp1 + s2));
                                    assert((pre_ft + ft1) + f2 =~= pre_ft + (ft1 + f2));
                                },
                                ScanOutcome::Fail(_) => {},
                            }
                            assert(scan_chain(packages.deep_view(), ft_acc, scan_sections(m,
                                kv.skip(k + 1))) == goal);
                        },
                        ScanOutcome::Fail(_) => {
                            assert(false);
                        },
                    }
                }
            },
        }
        k = k + 1;
    }
    proof {
        assert(kv.skip(kv.len() as int) =~= Seq::<Seq<char>>::empty());
        match goal {
            ScanOutcome::Found(sp, ft) => {
                assert(packages.deep_view() + Seq::<Seq<char>>::empty() =~= packages.deep_view());
                assert(ft_acc + Seq::<Package>::empty() =~= ft_acc);
                assert(sp == packages.deep_view() && ft == ft_acc);
            },
            ScanOutcome::Fail(_) => {
                assert(false);
            },
        }
    }
    let mut actions: Vec<Action> = Vec::new();
    actions.push(ensure_npm(&features));
    if packages.len() == 0 {
        proof {
            assert(packages.deep_view().len() == 0);
        }
        return Ok(actions);
    }
    let args = npm_install_args(&packages);
    let exe = ctx.npm_settings.npm_exe.clone();
    actions.push(Action::RunNpmInstall { exe, args });
    Ok(actions)
}

/// The digest field of one section entry: its key and the text its leaf
/// carries. Hashing only ever reaches entries whose leaves are strings; a
/// section with any other leaf is rejected before a field is fed.
pub open spec fn hash_field_of(e: DepEntryV) -> FieldV {
    FieldV { key: e.key, value: FieldValueV::Text(leaf_text(e.value)) }
}

/// The digest fields of a whole section, in entry order.
pub open spec fn section_fields(s: Seq<DepEntryV>) -> Seq<FieldV> {
    s.map(|i: int, e: DepEntryV| hash_field_of(e))
}

/// The digest fields one key contributes: its section's fields, or none
/// when absent or not a mapping.
pub open spec fn section_fields_at(m: Seq<ManifestEntryV>, key: Seq<char>) -> Seq<FieldV> {
    match manifest_find(m, key) {
        Option::Some(SectionValueV::Mapping(s)) => section_fields(s),
        _ => Seq::empty(),
    }
}

/// The digest fields of a list of keys, in order.
pub open spec fn sections_hash_fields(m: Seq<ManifestEntryV>, keys: Seq<Seq<char>>) -> Seq<FieldV>
    decreases keys.len(),
{
    if keys.len() == 0 {
        Seq::empty()
    } else {
        section_fields_at(m, keys[0]) + sections_hash_fields(m, keys.skip(1))
    }
}

/// Hashing a well-formed section is independent of the order its pairs
/// were inserted in: two sorted sections denoting the same mapping
/// contribute identical digest fields.
pub proof fn lemma_section_hash_order_independent(s1: Seq<DepEntryV>, s2: Seq<DepEntryV>)
    requires
        crate::manifest::sorted_entries(s1),
        crate::manifest::sorted_entries(s2),
        crate::manifest::section_map(s1) == crate::manifest::section_map(s2),
    ensures
        section_fields(s1) == section_fields(s2),
{
    crate::manifest::lemma_sorted_section_canonical(s1, s2);
}

/// Changing any leaf value of a section changes its digest fields: on
/// sections whose leaves are all strings, the field sequence determines
/// the entries exactly.
pub proof fn lemma_section_hash_value_sensitive(s1: Seq<DepEntryV>, s2: Seq<DepEntryV>)
    requires
        all_text(s1),
        all_text(s2),
        section_fields(s1) == section_fields(s2),
    ensures
        s1 == s2,
{
    assert(section_fields(s1).len() == s1.len());
    assert(section_fields(s2).len() == s2.len());
    assert(s1.len() == s2.len());
    assert forall|i: int| 0 <= i < s1.len() implies s1[i] == s2[i] by {
        assert(section_fields(s1)[i] == hash_field_of(s1[i]));
        assert(section_fields(s2)[i] == hash_field_of(s2[i]));
        assert(s1[i].value is Text && s2[i].value is Text);
    }
    assert(s1 =~= s2);
}

/// Changing what one scanned key contributes changes the digest fields of
/// the whole manifest step, whatever the other sections hold: with every
/// other key's contribution unchanged and the changed key's contribution
/// of the same length (as when one leaf value changes), the two field
/// streams differ.
pub proof fn lemma_manifest_hash_value_sensitive(
    m1: Seq<ManifestEntryV>,
    m2: Seq<ManifestEntryV>,
    keys: Seq<Seq<char>>,
    kidx: int,
)
    requires
        0 <= kidx < keys.len(),
        forall|i: int|
            0 <= i < keys.len() && i != kidx ==> section_fields_at(m1, #[trigger] keys[i])
                == section_fields_at(m2, keys[i]),
        section_fields_at(m1, keys[kidx]).len() == section_fields_at(m2, keys[kidx]).len(),
        section_fields_at(m1, keys[kidx]) != section_fields_at(m2, keys[kidx]),
    ensures
        sections_hash_fields(m1, keys) != sections_hash_fields(m2, keys),
    decreases keys.len(),
{
    let f1 = section_fields_at(m1, keys[0]);
    let f2 = section_fields_at(m2, keys[0]);
    let r1 = sections_hash_fields(m1, keys.skip(1));
    let r2 = sections_hash_fields(m2, keys.skip(1));
    if kidx == 0 {
        assert(exists|j: int| 0 <= j < f1.len() && f1[j] != f2[j]) by {
            if forall|j: int| 0 <= j < f1.len() ==> f1[j] == f2[j] {
                assert(f1 =~= f2);
            }
        }
        let j = choose|j: int| 0 <= j < f1.len() && f1[j] != f2[j];
        assert((f1 + r1)[j] == f1[j]);
        assert((f2 + r2)[j] == f2[j]);
        assert(sections_hash_fields(m1, keys)[j] != sections_hash_fields(m2, keys)[j]);
    } else {
        assert(f1 == f2);
        if sections_hash_fields(m1, keys) == sections_hash_fields(m2, keys) {
            crate::digest::lemma_concat_parts(f1, r1, f2, r2);
            assert forall|i: int|
                0 <= i < keys.skip(1).len() && i != kidx - 1 implies section_fields_at(
                m1,
                #[trigger] keys.skip(1)[i],
            ) == section_fields_at(m2, keys.skip(1)[i]) by {
                assert(keys.skip(1)[i] == keys[i + 1]);
            }
            assert(keys.skip(1)[kidx - 1] == keys[kidx]);
            lemma_manifest_hash_value_sensitive(m1, m2, keys.skip(1), kidx - 1);
            assert(false);
        }
    }
}

/// Two manifests identical but for one string leaf value under a scanned
/// key produce different digest fields for the whole step.
pub proof fn lemma_leaf_change_changes_digest(
    m1: Seq<ManifestEntryV>,
    m2: Seq<ManifestEntryV>,
    keys: Seq<Seq<char>>,
    kidx: int,
    s1: Seq<DepEntryV>,
    s2: Seq<DepEntryV>,
    j: int,
)
    requires
        0 <= kidx < keys.len(),
        forall|i: int|
            0 <= i < keys.len() && i != kidx ==> section_fields_at(m1, #[trigger] keys[i])
                == section_fields_at(m2, keys[i]),
        manifest_find(m1, keys[kidx]) == Option::Some(SectionValueV::Mapping(s1)),
        manifest_find(m2, keys[kidx]) == Option::Some(SectionValueV::Mapping(s2)),
        s1.len() == s2.len(),
        0 <= j < s1.len(),
        s1[j].key == s2[j].key,
        s1[j].value matches DepValueV::Text(v1) && s2[j].value matches DepValueV::Text(v2) && v1
            != v2,
    ensures
        sections_hash_fields(m1, keys) != sections_hash_fields(m2, keys),
{
    assert(section_fields_at(m1, keys[kidx]) == section_fields(s1));
    assert(section_fields_at(m2, keys[kidx]) == section_fields(s2));
    assert(section_fields(s1)[j] == hash_field_of(s1[j]));
    assert(section_fields(s2)[j] == hash_field_of(s2[j]));
    assert(hash_field_of(s1[j]) != hash_field_of(s2[j]));
    assert(section_fields(s1) != section_fields(s2));
    lemma_manifest_hash_value_sensitive(m1, m2, keys, kidx);
}

/// The failure an outcome carries, if any.
pub open spec fn scan_failure(o: ScanOutcome) -> Option<StepErrorV> {
    match o {
        ScanOutcome::Fail(e) => Option::Some(e),
        ScanOutcome::Found(_, _) => Option::None,
    }
}

/// Checks one section without touching anything: an absent key is fine, a
/// present non-mapping value is fatal, and so is a non-string leaf, which
/// is reported with its key and its rendered value.
fn check_section(data: &Manifest, key: &str) -> (r: Result<(), StepError>)
    ensures
        match scan_section(data@, key@) {
            ScanOutcome::Found(sp, ft) => r is Ok,
            ScanOutcome::Fail(e) => r matches Err(err) && err@ == e,
        },
{
    let found = data.find(key);
    match found {
        Option::None => Ok(()),
        Option::Some(v @ SectionValue::NotMapping) => {
            proof {
                assert(manifest_find(data@, key@) == Option::Some(v@));
            }
            Err(StepError::NotMapping(key.to_owned()))
        },
        Option::Some(v @ SectionValue::Mapping(sec)) => {
            let ghost s = sec@;
            proof {
                assert(manifest_find(data@, key@) == Option::Some(v@));
                assert(v@ == SectionValueV::Mapping(s));
            }
            let mut i: usize = 0;
            while i < sec.entries.len()
                invariant
                    i <= sec.entries.len(),
                    s == sec@,
                    s.len() == sec.entries@.len(),
                    forall|j: int| 0 <= j < s.len() ==> s[j] == sec.entries@[j]@,
                    manifest_find(data@, key@) == Option::Some(SectionValueV::Mapping(s)),
                    forall|j: int| 0 <= j < i ==> s[j].value is Text,
                decreases sec.entries.len() - i,
            {
                match &sec.entries[i].value {
                    DepValue::Text(_) => {},
                    DepValue::Other(txt) => {
                        proof {
                            lemma_first_bad_is(s, i as int);
                            assert(!(s[i as int].value is Text));
                            assert(!all_text(s));
                            assert(scan_section(data@, key@) == ScanOutcome::Fail(
                                StepErrorV::WrongVersion(s[i as int].key, leaf_text(
                                    s[i as int].value,
                                )),
                            ));
                        }
                        return Err(StepError::WrongVersion(sec.entries[i].key.clone(),
                            txt.clone()));
                    },
                }
                i = i + 1;
            }
            proof {
                assert(all_text(s));
            }
            Ok(())
        },
    }
}

/// Feeds one already-checked section into the digest, entry by entry in
/// stored (sorted) order; an absent key contributes nothing.
fn npm_hash_deps(data: &Manifest, key: &str, hash: &mut Digest)
    requires
        scan_section(data@, key@) is Found,
    ensures
        final(hash)@ == old(hash)@ + section_fields_at(data@, key@),
{
    let found = data.find(key);
    match found {
        Option::Some(v @ SectionValue::Mapping(sec)) => {
            let ghost s = sec@;
            let mut i: usize = 0;
            proof {
                assert(manifest_find(data@, key@) == Option::Some(v@));
                assert(v@ == SectionValueV::Mapping(s));
                assert(all_text(s));
                assert(section_fields(s.take(0)) =~= Seq::<FieldV>::empty());
                assert(hash@ =~= old(hash)@ + section_fields(s.take(0)));
            }
            while i < sec.entries.len()
                invariant
                    i <= sec.entries.len(),
                    s == sec@,
                    s.len() == sec.entries@.len(),
                    forall|j: int| 0 <= j < s.len() ==> s[j] == sec.entries@[j]@,
                    manifest_find(data@, key@) == Option::Some(SectionValueV::Mapping(s)),
                    all_text(s),
                    hash@ == old(hash)@ + section_fields(s.take(i as int)),
                decreases sec.entries.len() - i,
            {
                match &sec.entries[i].value {
                    DepValue::Text(v) => {
                        hash.field(sec.entries[i].key.as_str(), v.as_str());
                    },
                    DepValue::Other(_) => {
                        proof {
                            assert(s[i as int].value is Text);
                            assert(false);
                        }
                    },
                }
                proof {
                    assert(section_fields(s.take(i + 1)) =~= section_fields(s.take(i as int)).push(
                        hash_field_of(s[i as int]),
                    ));
                    assert(hash@ =~= old(hash)@ + section_fields(s.take(i + 1)));
                }
                i = i + 1;
            }
            proof {
                assert(s.take(s.len() as int) =~= s);
            }
        },
        Option::Some(v @ SectionValue::NotMapping) => {
            proof {
                assert(manifest_find(data@, key@) == Option::Some(v@));
                assert(false);
            }
        },
        Option::None => {
            proof {
                assert(hash@ =~= old(hash)@ + section_fields_at(data@, key@));
            }
        },
    }
}

impl NpmDependencies {
    /// The stable step identifier.
    pub fn name(&self) -> (r: &'static str)
        ensures
            r@ == "NpmDependencies"@,
    {
        "NpmDependencies"
    }

    /// Mixes every enabled section of the manifest into the digest, keys
    /// in the section's stored (sorted) order, skipping nothing: a
    /// non-string leaf under an enabled section is a fatal mismatch naming
    /// the offending key and value, and so is an enabled section that is
    /// present but not a mapping. An absent section is silently empty. On
    /// failure the digest is left untouched.
    pub fn hash(&self, data: &Manifest, hash: &mut Digest) -> (r: Result<(), StepError>)
        ensures
            match scan_sections(data@, enabled_keys(self.package, self.dev, self.peer,
                self.bundled, self.optional)) {
                ScanOutcome::Fail(e) => r matches Err(err) && err@ == e && final(hash)@ == old(
                    hash,
                )@,
                ScanOutcome::Found(sp, ft) => r is Ok && final(hash)@ == old(hash)@
                    + sections_hash_fields(data@, enabled_keys(self.package, self.dev, self.peer,
                    self.bundled, self.optional)),
            },
    {
        let keys = self.section_keys();
        let ghost kv = keys.deep_view();
        let ghost m = data@;
        let ghost goal = scan_sections(m, kv);
        let mut k: usize = 0;
        proof {
            assert(kv.skip(0) =~= kv);
        }
        while k < keys.len()
            invariant
                k <= keys.len(),
                kv == keys.deep_view(),
                kv.len() == keys@.len(),
                forall|j: int| 0 <= j < kv.len() ==> kv[j] == keys@[j]@,
                m == data@,
                kv == enabled_keys(self.package, self.dev, self.peer, self.bundled,
                    self.optional),
                goal == scan_sections(m, kv),
                hash@ == old(hash)@,
                scan_failure(goal) == scan_failure(scan_sections(m, kv.skip(k as int))),
                forall|j: int| 0 <= j < k ==> scan_section(m, #[trigger] kv[j]) is Found,
            decreases keys.len() - k,
        {
            proof {
                assert(kv.skip(k as int)[0] == kv[k as int]);
                assert(kv.skip(k as int).skip(1) =~= kv.skip(k + 1));
            }
            match check_section(data, keys[k].as_str()) {
                Result::Err(e) => {
                    proof {
                        assert(scan_section(m, kv[k as int]) matches ScanOutcome::Fail(ev) && e@
                            == ev);
                        assert(scan_sections(m, kv.skip(k as int)) == ScanOutcome::Fail(e@));
                        assert(scan_failure(goal) == Option::Some(e@));
                        assert(goal == ScanOutcome::Fail(e@));
                    }
                    return Err(e);
                },
                Result::Ok(_) => {
                    proof {
                        assert(scan_section(m, kv[k as int]) is Found);
                        match scan_sections(m, kv.skip(k + 1)) {
                            ScanOutcome::Fail(_) => {},
                            ScanOutcome::Found(_, _) => {},
                        }
                        assert(scan_failure(scan_sections(m, kv.skip(k as int))) == scan_failure(
                            scan_sections(m, kv.skip(k + 1)),
                        ));
                    }
                },
            }
            k = k + 1;
        }
        proof {
            assert(kv.skip(kv.len() as int) =~= Seq::<Seq<char>>::empty());
            assert(scan_failure(goal) is None);
            assert(goal is Found);
        }
        let mut k: usize = 0;
        proof {
            assert(kv.skip(0) =~= kv);
        }
        while k < keys.len()
            invariant
                k <= keys.len(),
                kv == keys.deep_view(),
                kv.len() == keys@.len(),
                forall|j: int| 0 <= j < kv.len() ==> kv[j] == keys@[j]@,
                m == data@,
                forall|j: int| 0 <= j < kv.len() ==> scan_section(m, #[trigger] kv[j]) is Found,
                old(hash)@ + sections_hash_fields(m, kv) == hash@ + sections_hash_fields(m,
                    kv.skip(k as int)),
            decreases keys.len() - k,
        {
            proof {
                assert(kv.skip(k as int)[0] == kv[k as int]);
                assert(kv.skip(k as int).skip(1) =~= kv.skip(k + 1));
            }
            npm_hash_deps(data, keys[k].as_str(), hash);
            proof {
                assert(old(hash)@ + sections_hash_fields(m, kv) =~= hash@ + sections_hash_fields(
                    m,
                    kv.skip(k + 1),
                ));
            }
            k = k + 1;
        }
        proof {
            assert(kv.skip(kv.len() as int) =~= Seq::<Seq<char>>::empty());
            assert(hash@ + Seq::<FieldV>::empty() =~= hash@);
            assert(final(hash)@ =~= old(hash)@ + sections_hash_fields(m, kv));
        }
        Ok(())
    }

    /// Always asks for the one-time ecosystem bootstrap; an execute pass
    /// additionally scans the manifest and performs the installation.
    pub fn build(&self, ctx: &mut Context, build: bool, data: &Manifest) -> (r: Result<
        Vec<Action>,
        StepError,
    >)
        ensures
            !build ==> *final(ctx) == *old(ctx) && (r matches Ok(actions) && actions@ =~= seq![
                Action::NpmConfigure,
            ]),
            build ==> final(ctx).packages == old(ctx).packages && final(ctx).build_deps == old(
                ctx,
            ).build_deps && final(ctx).npm_settings == old(ctx).npm_settings,
            build ==> final(ctx).cache_dirs@ == if old(ctx).cache_dirs@.dom().contains(
                "npm-cache"@,
            ) {
                old(ctx).cache_dirs@
            } else {
                old(ctx).cache_dirs@.insert("npm-cache"@, "/tmp/npm-cache"@)
            },
            build ==> match scan_sections(data@, enabled_keys(self.package, self.dev, self.peer,
                self.bundled, self.optional)) {
                ScanOutcome::Fail(e) => r matches Err(err) && err@ == e,
                ScanOutcome::Found(sp, ft) => r matches Ok(actions) && {
                    &&& actions@.len() == if sp.len() == 0 {
                        2int
                    } else {
                        3int
                    }
                    &&& actions@[0] == Action::NpmConfigure
                    &&& (actions@[1] matches Action::EnsureFeatures(f) && f@ == dedup_features(
                        base_features(old(ctx).npm_settings.install_node) + ft,
                    ))
                    &&& sp.len() > 0 ==> (actions@[2] matches Action::RunNpmInstall { exe, args }
                        && exe == old(ctx).npm_settings.npm_exe && args.deep_view()
                        == npm_args_spec(sp))
                    &&& sp.len() == 0 ==> forall|i: int|
                        0 <= i < actions@.len() ==> !is_process_action(actions@[i])
                },
            },
    {
        let mut actions: Vec<Action> = Vec::new();
        actions.push(Action::NpmConfigure);
        if build {
            match npm_deps(ctx, self, data) {
                Result::Ok(mut more) => {
                    let ghost mv = more@;
                    actions.append(&mut more);
                    proof {
                        assert(actions@ =~= seq![Action::NpmConfigure] + mv);
                    }
                },
                Result::Err(e) => {
                    return Err(e);
                },
            }
        }
        Ok(actions)
    }

    /// No step variant declares a predecessor beyond recipe order.
    pub fn is_dependent_on(&self) -> (r: Option<&str>)
        ensures
            r is None,
    {
        None
    }
}

} // verus!
