//! Layered settings merging: a secure settings document (with an optional
//! per-project site block) and a project-local insecure document are
//! folded, field by field, into the externally-visible merged settings and
//! the internal settings. Reading and parsing the documents is the
//! caller's concern; the merge itself is pure.

use vstd::prelude::*;

verus! {

/// One key/value pair of an environment or volume mapping. Pairs are
/// applied in order; a later pair for the same key wins.
#[derive(Debug)]
pub struct StrEntry {
    pub key: String,
    pub value: String,
}

impl View for StrEntry {
    type V = (Seq<char>, Seq<char>);

    open spec fn view(&self) -> (Seq<char>, Seq<char>) {
        (self.key@, self.value@)
    }
}

impl DeepView for StrEntry {
    type V = (Seq<char>, Seq<char>);

    open spec fn deep_view(&self) -> (Seq<char>, Seq<char>) {
        self.view()
    }
}

/// A secure settings document, from a user-owned file or the environment.
#[derive(Debug)]
pub struct SecureSettings {
    pub storage_dir: Option<String>,
    pub cache_dir: Option<String>,
    pub version_check: Option<bool>,
    pub proxy_env_vars: Option<bool>,
    pub ubuntu_mirror: Option<String>,
    pub alpine_mirror: Option<String>,
    pub site_settings: Vec<SiteEntry>,
    pub external_volumes: Vec<StrEntry>,
    pub push_image_script: Option<String>,
    pub build_lock_wait: Option<bool>,
    pub auto_apply_sysctl: Option<bool>,
    pub environ: Vec<StrEntry>,
}

/// A per-project override block inside a secure document, keyed by the
/// project root it applies to.
#[derive(Debug)]
pub struct SiteEntry {
    pub root: String,
    pub settings: SiteSettings,
}

/// The fields a site block may override. Its directories are taken
/// verbatim, with no home-directory expansion.
#[derive(Debug)]
pub struct SiteSettings {
    pub storage_dir: Option<String>,
    pub cache_dir: Option<String>,
    pub version_check: Option<bool>,
    pub ubuntu_mirror: Option<String>,
    pub alpine_mirror: Option<String>,
    pub external_volumes: Vec<StrEntry>,
    pub push_image_script: Option<String>,
    pub build_lock_wait: Option<bool>,
    pub auto_apply_sysctl: Option<bool>,
    pub environ: Vec<StrEntry>,
}

/// A project-local insecure settings document; only the fields that are
/// safe for a project to set.
#[derive(Debug)]
pub struct InsecureSettings {
    pub version_check: Option<bool>,
    pub shared_cache: Option<bool>,
    pub ubuntu_mirror: Option<String>,
    pub alpine_mirror: Option<String>,
    pub build_lock_wait: Option<bool>,
    pub environ: Vec<StrEntry>,
}

/// The externally-visible result of merging: storage locations, volumes
/// and the push script.
#[derive(Debug)]
pub struct MergedSettings {
    pub external_volumes: Vec<StrEntry>,
    pub push_image_script: Option<String>,
    pub storage_dir: Option<String>,
    pub cache_dir: Option<String>,
    pub shared_cache: bool,
}

/// Mathematical view of the merged settings.
#[verifier::ext_equal]
pub struct MergedV {
    pub external_volumes: Seq<(Seq<char>, Seq<char>)>,
    pub push_image_script: Option<Seq<char>>,
    pub storage_dir: Option<Seq<char>>,
    pub cache_dir: Option<Seq<char>>,
    pub shared_cache: bool,
}

/// The view of an optional string.
pub open spec fn opt_view(o: Option<String>) -> Option<Seq<char>> {
    match o {
        Option::Some(v) => Option::Some(v@),
        Option::None => Option::None,
    }
}

impl View for MergedSettings {
    type V = MergedV;

    open spec fn view(&self) -> MergedV {
        MergedV {
            external_volumes: self.external_volumes.deep_view(),
            push_image_script: opt_view(self.push_image_script),
            storage_dir: opt_view(self.storage_dir),
            cache_dir: opt_view(self.cache_dir),
            shared_cache: self.shared_cache,
        }
    }
}

/// The internal settings consumed by the builder itself.
#[derive(Debug)]
pub struct Settings {
    pub version_check: bool,
    pub proxy_env_vars: bool,
    pub ubuntu_mirror: Option<String>,
    pub alpine_mirror: Option<String>,
    pub push_image_script: Option<String>,
    pub build_lock_wait: bool,
    pub auto_apply_sysctl: bool,
    pub environ: Vec<StrEntry>,
}

/// Mathematical view of the internal settings.
#[verifier::ext_equal]
pub struct SettingsV {
    pub version_check: bool,
    pub proxy_env_vars: bool,
    pub ubuntu_mirror: Option<Seq<char>>,
    pub alpine_mirror: Option<Seq<char>>,
    pub push_image_script: Option<Seq<char>>,
    pub build_lock_wait: bool,
    pub auto_apply_sysctl: bool,
    pub environ: Seq<(Seq<char>, Seq<char>)>,
}

impl View for Settings {
    type V = SettingsV;

    open spec fn view(&self) -> SettingsV {
        SettingsV {
            version_check: self.version_check,
            proxy_env_vars: self.proxy_env_vars,
            ubuntu_mirror: opt_view(self.ubuntu_mirror),
            alpine_mirror: opt_view(self.alpine_mirror),
            push_image_script: opt_view(self.push_image_script),
            build_lock_wait: self.build_lock_wait,
            auto_apply_sysctl: self.auto_apply_sysctl,
            environ: self.environ.deep_view(),
        }
    }
}

/// Whether a path begins with a home-directory reference.
pub open spec fn needs_home(p: Seq<char>) -> bool {
    p.len() >= 2 && p[0] == '~' && p[1] == '/'
}

/// The path after home expansion: a leading tilde segment is replaced by
/// the home directory; any other path is unchanged.
pub open spec fn expanded(p: Seq<char>, home: Option<Seq<char>>) -> Seq<char> {
    if needs_home(p) {
        match home {
            Option::Some(h) => h + p.skip(1),
            Option::None => p,
        }
    } else {
        p
    }
}

/// Expands a leading `~/` using the given home directory; fails exactly
/// when the path needs a home directory and none is known.
pub fn expand_home(path: &str, home: &Option<String>) -> (r: Option<String>)
    ensures
        match r {
            Option::Some(v) => v@ == expanded(path@, opt_view(*home)) && !(needs_home(path@)
                && *home is None),
            Option::None => needs_home(path@) && *home is None,
        },
{
    let n: usize = path.unicode_len();
    if n >= 2 && path.get_char(0) == '~' && path.get_char(1) == '/' {
        match home {
            Option::Some(h) => {
                let mut s = h.clone();
                s.append(path.substring_char(1, n));
                proof {
                    assert(path@.subrange(1, n as int) =~= path@.skip(1));
                }
                Some(s)
            },
            Option::None => None,
        }
    } else {
        Some(path.to_owned())
    }
}

/// The outcome of applying a secure layer: the new state, or the field on
/// which home expansion failed (nothing is changed on the first failure;
/// only the storage directory is changed on the second).
pub enum MergeOutcome {
    Done(MergedV, SettingsV),
    FailStorage,
    FailCache,
}

/// An optional value overriding a base.
pub open spec fn layer<T>(base: T, o: Option<T>) -> T {
    match o {
        Option::Some(v) => v,
        Option::None => base,
    }
}

/// An optional string overriding an optional base.
pub open spec fn layer_str(base: Option<Seq<char>>, o: Option<String>) -> Option<Seq<char>> {
    match o {
        Option::Some(v) => Option::Some(v@),
        Option::None => base,
    }
}

/// The effect of one secure layer on the merged and internal settings.
pub open spec fn apply_secure(m: MergedV, s: SettingsV, cfg: &SecureSettings, home: Option<
    Seq<char>,
>) -> MergeOutcome {
    if cfg.storage_dir matches Option::Some(d) && needs_home(d@) && home is None {
        MergeOutcome::FailStorage
    } else if cfg.cache_dir matches Option::Some(d) && needs_home(d@) && home is None {
        MergeOutcome::FailCache
    } else {
        MergeOutcome::Done(
            MergedV {
                storage_dir: match cfg.storage_dir {
                    Option::Some(d) => Option::Some(expanded(d@, home)),
                    Option::None => m.storage_dir,
                },
                cache_dir: match cfg.cache_dir {
                    Option::Some(d) => Option::Some(expanded(d@, home)),
                    Option::None => m.cache_dir,
                },
                shared_cache: if cfg.cache_dir is Some {
                    true
                } else {
                    m.shared_cache
                },
                external_volumes: m.external_volumes + cfg.external_volumes.deep_view(),
                push_image_script: m.push_image_script,
            },
            SettingsV {
                version_check: layer(s.version_check, cfg.version_check),
                proxy_env_vars: layer(s.proxy_env_vars, cfg.proxy_env_vars),
                ubuntu_mirror: layer_str(s.ubuntu_mirror, cfg.ubuntu_mirror),
                alpine_mirror: layer_str(s.alpine_mirror, cfg.alpine_mirror),
                push_image_script: layer_str(s.push_image_script, cfg.push_image_script),
                build_lock_wait: layer(s.build_lock_wait, cfg.build_lock_wait),
                auto_apply_sysctl: layer(s.auto_apply_sysctl, cfg.auto_apply_sysctl),
                environ: s.environ + cfg.environ.deep_view(),
            },
        )
    }
}

/// The effect of a site block; directories are taken verbatim.
pub open spec fn apply_site(m: MergedV, s: SettingsV, sc: &SiteSettings) -> (MergedV, SettingsV) {
    (
        MergedV {
            storage_dir: layer_str(m.storage_dir, sc.storage_dir),
            cache_dir: layer_str(m.cache_dir, sc.cache_dir),
            shared_cache: if sc.cache_dir is Some {
                true
            } else {
                m.shared_cache
            },
            external_volumes: m.external_volumes + sc.external_volumes.deep_view(),
            push_image_script: m.push_image_script,
        },
        SettingsV {
            version_check: layer(s.version_check, sc.version_check),
            proxy_env_vars: s.proxy_env_vars,
            ubuntu_mirror: layer_str(s.ubuntu_mirror, sc.ubuntu_mirror),
            alpine_mirror: layer_str(s.alpine_mirror, sc.alpine_mirror),
            push_image_script: layer_str(s.push_image_script, sc.push_image_script),
            build_lock_wait: layer(s.build_lock_wait, sc.build_lock_wait),
            auto_apply_sysctl: layer(s.auto_apply_sysctl, sc.auto_apply_sysctl),
            environ: s.environ + sc.environ.deep_view(),
        },
    )
}

/// The effect of the project-local insecure layer.
pub open spec fn apply_insecure(m: MergedV, s: SettingsV, cfg: &InsecureSettings) -> (
    MergedV,
    SettingsV,
) {
    (
        MergedV {
            shared_cache: layer(m.shared_cache, cfg.shared_cache),
            ..m
        },
        SettingsV {
            version_check: layer(s.version_check, cfg.version_check),
            ubuntu_mirror: layer_str(s.ubuntu_mirror, cfg.ubuntu_mirror),
            alpine_mirror: layer_str(s.alpine_mirror, cfg.alpine_mirror),
            build_lock_wait: layer(s.build_lock_wait, cfg.build_lock_wait),
            environ: s.environ + cfg.environ.deep_view(),
            ..s
        },
    )
}

/// The first site block registered for the given project root.
pub open spec fn find_site(s: Seq<SiteEntry>, root: Seq<char>) -> Option<SiteSettings>
    decreases s.len(),
{
    if s.len() == 0 {
        Option::None
    } else if s[0].root@ == root {
        Option::Some(s[0].settings)
    } else {
        find_site(s.skip(1), root)
    }
}

/// One whole secure document applied: the main layer, then the site block
/// for this project root, if any.
pub open spec fn merge_spec(m: MergedV, s: SettingsV, cfg: &SecureSettings, root: Seq<char>, home: Option<
    Seq<char>,
>) -> MergeOutcome {
    match apply_secure(m, s, cfg, home) {
        MergeOutcome::FailStorage => MergeOutcome::FailStorage,
        MergeOutcome::FailCache => MergeOutcome::FailCache,
        MergeOutcome::Done(m1, s1) => match find_site(cfg.site_settings@, root) {
            Option::None => MergeOutcome::Done(m1, s1),
            Option::Some(sc) => {
                let r = apply_site(m1, s1, &sc);
                MergeOutcome::Done(r.0, r.1)
            },
        },
    }
}

/// A home-expansion failure while merging; both are fatal.
#[derive(Debug, PartialEq, Eq, Structural)]
pub enum SettingsError {
    StorageDirNoHome,
    CacheDirNoHome,
}

impl SettingsError {
    /// Renders the error for diagnostics.
    pub fn describe(&self) -> (r: String)
        ensures
            *self is StorageDirNoHome ==> r@ == "Can't expand tilde `~` in storage dir no HOME found"@,
            *self is CacheDirNoHome ==> r@ == "Can't expand tilde `~` in cache dir no HOME found"@,
    {
        match self {
            SettingsError::StorageDirNoHome => "Can't expand tilde `~` in storage dir no HOME found".to_owned(),
            SettingsError::CacheDirNoHome => "Can't expand tilde `~` in cache dir no HOME found".to_owned(),
        }
    }
}

/// Appends copies of the given pairs.
fn append_pairs(target: &mut Vec<StrEntry>, src: &Vec<StrEntry>)
    ensures
        final(target).deep_view() == old(target).deep_view() + src.deep_view(),
{
    let mut i: usize = 0;
    proof {
        assert(target.deep_view() =~= old(target).deep_view() + src.deep_view().take(0));
    }
    while i < src.len()
        invariant
            i <= src.len(),
            src.deep_view().len() == src@.len(),
            forall|j: int| 0 <= j < src@.len() ==> src.deep_view()[j] == src@[j]@,
            target.deep_view() == old(target).deep_view() + src.deep_view().take(i as int),
        decreases src.len() - i,
    {
        let ghost prev = target.deep_view();
        target.push(StrEntry { key: src[i].key.clone(), value: src[i].value.clone() });
        proof {
            assert(target.deep_view() =~= prev.push(src.deep_view()[i as int]));
            assert(target.deep_view() =~= old(target).deep_view() + src.deep_view().take(i + 1));
        }
        i = i + 1;
    }
    proof {
        assert(src.deep_view().take(src@.len() as int) =~= src.deep_view());
    }
}

/// Finds the site block for a project root, first registration winning.
fn find_site_entry<'a>(sites: &'a Vec<SiteEntry>, root: &str) -> (r: Option<&'a SiteSettings>)
    ensures
        match r {
            Option::Some(sc) => find_site(sites@, root@) == Option::Some(*sc),
            Option::None => find_site(sites@, root@) == Option::<SiteSettings>::None,
        },
{
    let mut i: usize = 0;
    proof {
        assert(sites@.skip(0) =~= sites@);
    }
    while i < sites.len()
        invariant
            i <= sites.len(),
            find_site(sites@, root@) == find_site(sites@.skip(i as int), root@),
        decreases sites.len() - i,
    {
        if crate::strutil::str_eq(sites[i].root.as_str(), root) {
            proof {
                assert(sites@.skip(i as int)[0] == sites@[i as int]);
            }
            return Option::Some(&sites[i].settings);
        }
        proof {
            assert(sites@.skip(i as int)[0] == sites@[i as int]);
            assert(sites@.skip(i as int).skip(1) =~= sites@.skip(i + 1));
        }
        i = i + 1;
    }
    Option::None
}

/// Applies one secure settings document: the main layer first, then the
/// site block registered for this project root. The merged and internal
/// settings are updated in place; a home-expansion failure on the storage
/// directory changes nothing, and one on the cache directory has already
/// set the storage directory, exactly as the layers apply in order.
fn apply_secure_settings(cfg: &SecureSettings, home: &Option<String>, ext_settings: &mut
    MergedSettings, int_settings: &mut Settings) -> (r: Result<(), SettingsError>)
    ensures
        match apply_secure(old(ext_settings)@, old(int_settings)@, cfg, opt_view(*home)) {
            MergeOutcome::Done(mv, sv) => r is Ok && final(ext_settings)@ == mv
                && final(int_settings)@ == sv,
            MergeOutcome::FailStorage => r == Result::<(), SettingsError>::Err(
                SettingsError::StorageDirNoHome,
            ) && final(ext_settings)@ == old(ext_settings)@ && final(int_settings)@
                == old(int_settings)@,
            MergeOutcome::FailCache => r == Result::<(), SettingsError>::Err(
                SettingsError::CacheDirNoHome,
            ) && final(int_settings)@ == old(int_settings)@ && final(ext_settings)@ == (MergedV {
                storage_dir: match cfg.storage_dir {
                    Option::Some(d) => Option::Some(expanded(d@, opt_view(*home))),
                    Option::None => old(ext_settings)@.storage_dir,
                },
                ..old(ext_settings)@
            }),
        },
{
    match &cfg.storage_dir {
        Option::Some(dir) => {
            match expand_home(dir.as_str(), home) {
                Option::Some(v) => {
                    ext_settings.storage_dir = Some(v);
                },
                Option::None => {
                    proof {
                        assert(final(ext_settings)@ =~= old(ext_settings)@);
                        assert(final(int_settings)@ =~= old(int_settings)@);
                    }
                    return Err(SettingsError::StorageDirNoHome);
                },
            }
        },
        Option::None => {},
    }
    match &cfg.cache_dir {
        Option::Some(dir) => {
            match expand_home(dir.as_str(), home) {
                Option::Some(v) => {
                    ext_settings.cache_dir = Some(v);
                    ext_settings.shared_cache = true;
                },
                Option::None => {
                    proof {
                        assert(final(int_settings)@ =~= old(int_settings)@);
                        assert(final(ext_settings)@ =~= (MergedV {
                            storage_dir: match cfg.storage_dir {
                                Option::Some(d) => Option::Some(expanded(d@, opt_view(*home))),
                                Option::None => old(ext_settings)@.storage_dir,
                            },
                            ..old(ext_settings)@
                        }));
                    }
                    return Err(SettingsError::CacheDirNoHome);
                },
            }
        },
        Option::None => {},
    }
    if let Option::Some(val) = &cfg.version_check {
        int_settings.version_check = *val;
    }
    if let Option::Some(val) = &cfg.proxy_env_vars {
        int_settings.proxy_env_vars = *val;
    }
    if let Option::Some(val) = &cfg.ubuntu_mirror {
        int_settings.ubuntu_mirror = Some(val.clone());
    }
    if let Option::Some(val) = &cfg.alpine_mirror {
        int_settings.alpine_mirror = Some(val.clone());
    }
    append_pairs(&mut ext_settings.external_volumes, &cfg.external_volumes);
    if let Option::Some(val) = &cfg.push_image_script {
        int_settings.push_image_script = Some(val.clone());
    }
    if let Option::Some(val) = &cfg.build_lock_wait {
        int_settings.build_lock_wait = *val;
    }
    if let Option::Some(val) = &cfg.auto_apply_sysctl {
        int_settings.auto_apply_sysctl = *val;
    }
    append_pairs(&mut int_settings.environ, &cfg.environ);
    proof {
        assert(apply_secure(old(ext_settings)@, old(int_settings)@, cfg, opt_view(*home)) matches
            MergeOutcome::Done(mv, sv) && final(ext_settings)@ =~= mv && final(int_settings)@
            =~= sv);
    }
    Ok(())
}

fn apply_site_settings(sc: &SiteSettings, ext_settings: &mut MergedSettings, int_settings: &mut
    Settings)
    ensures
        final(ext_settings)@ == apply_site(old(ext_settings)@, old(int_settings)@, sc).0,
        final(int_settings)@ == apply_site(old(ext_settings)@, old(int_settings)@, sc).1,
{
    if let Option::Some(dir) = &sc.storage_dir {
        ext_settings.storage_dir = Some(dir.clone());
    }
    if let Option::Some(dir) = &sc.cache_dir {
        ext_settings.cache_dir = Some(dir.clone());
        ext_settings.shared_cache = true;
    }
    if let Option::Some(val) = &sc.version_check {
        int_settings.version_check = *val;
    }
    if let Option::Some(val) = &sc.ubuntu_mirror {
        int_settings.ubuntu_mirror = Some(val.clone());
    }
    if let Option::Some(val) = &sc.alpine_mirror {
        int_settings.alpine_mirror = Some(val.clone());
    }
    append_pairs(&mut ext_settings.external_volumes, &sc.external_volumes);
    if let Option::Some(val) = &sc.push_image_script {
        int_settings.push_image_script = Some(val.clone());
    }
    if let Option::Some(val) = &sc.build_lock_wait {
        int_settings.build_lock_wait = *val;
    }
    if let Option::Some(val) = &sc.auto_apply_sysctl {
        int_settings.auto_apply_sysctl = *val;
    }
    append_pairs(&mut int_settings.environ, &sc.environ);
    proof {
        assert(final(ext_settings)@ =~= apply_site(old(ext_settings)@, old(int_settings)@, sc).0);
        assert(final(int_settings)@ =~= apply_site(old(ext_settings)@, old(int_settings)@, sc).1);
    }
}

/// Applies one secure settings document: the main layer first, then the
/// site block registered for this project root. The merged and internal
/// settings are updated in place; a home-expansion failure on the storage
/// directory changes nothing, and one on the cache directory has already
/// set the storage directory, exactly as the layers apply in order.
pub fn merge_settings(cfg: &SecureSettings, project_root: &str, home: &Option<String>, ext_settings: &mut
    MergedSettings, int_settings: &mut Settings) -> (r: Result<(), SettingsError>)
    ensures
        match merge_spec(old(ext_settings)@, old(int_settings)@, cfg, project_root@, opt_view(*home)) {
            MergeOutcome::Done(mv, sv) => r is Ok && final(ext_settings)@ == mv && final(int_settings)@ == sv,
            MergeOutcome::FailStorage => r == Result::<(), SettingsError>::Err(
                SettingsError::StorageDirNoHome,
            ) && final(ext_settings)@ == old(ext_settings)@ && final(int_settings)@ == old(int_settings)@,
            MergeOutcome::FailCache => r == Result::<(), SettingsError>::Err(
                SettingsError::CacheDirNoHome,
            ) && final(int_settings)@ == old(int_settings)@ && final(ext_settings)@ == (MergedV {
                storage_dir: match cfg.storage_dir {
                    Option::Some(d) => Option::Some(expanded(d@, opt_view(*home))),
                    Option::None => old(ext_settings)@.storage_dir,
                },
                ..old(ext_settings)@
            }),
        },
{
    match apply_secure_settings(cfg, home, ext_settings, int_settings) {
        Result::Err(e) => {
            return Err(e);
        },
        Result::Ok(_) => {},
    }
    match find_site_entry(&cfg.site_settings, project_root) {
        Option::None => {},
        Option::Some(sc) => {
            apply_site_settings(sc, ext_settings, int_settings);
        },
    }
    Ok(())
}

/// Applies the project-local insecure layer; it cannot fail.
pub fn merge_insecure_settings(cfg: &InsecureSettings, ext_settings: &mut MergedSettings, int_settings: &mut Settings)
    ensures
        final(ext_settings)@ == apply_insecure(old(ext_settings)@, old(int_settings)@, cfg).0,
        final(int_settings)@ == apply_insecure(old(ext_settings)@, old(int_settings)@, cfg).1,
{
    if let Option::Some(val) = &cfg.version_check {
        int_settings.version_check = *val;
    }
    if let Option::Some(val) = &cfg.ubuntu_mirror {
        int_settings.ubuntu_mirror = Some(val.clone());
    }
    if let Option::Some(val) = &cfg.alpine_mirror {
        int_settings.alpine_mirror = Some(val.clone());
    }
    if let Option::Some(val) = &cfg.shared_cache {
        ext_settings.shared_cache = *val;
    }
    if let Option::Some(val) = &cfg.build_lock_wait {
        int_settings.build_lock_wait = *val;
    }
    append_pairs(&mut int_settings.environ, &cfg.environ);
    proof {
        assert(ext_settings@ =~= apply_insecure(old(ext_settings)@, old(int_settings)@, cfg).0);
        assert(int_settings@ =~= apply_insecure(old(ext_settings)@, old(int_settings)@, cfg).1);
    }
}

} // verus!
