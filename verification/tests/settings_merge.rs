use vagga::settings::{expand_home, merge_insecure_settings, merge_settings, InsecureSettings,
    MergedSettings, SecureSettings, SettingsError, SiteEntry, SiteSettings, Settings, StrEntry};

fn empty_merged() -> MergedSettings {
    MergedSettings {
        external_volumes: Vec::new(),
        push_image_script: None,
        storage_dir: None,
        cache_dir: None,
        shared_cache: false,
    }
}

fn default_settings() -> Settings {
    Settings {
        version_check: true,
        proxy_env_vars: true,
        ubuntu_mirror: None,
        alpine_mirror: None,
        push_image_script: None,
        build_lock_wait: false,
        auto_apply_sysctl: false,
        environ: Vec::new(),
    }
}

fn empty_secure() -> SecureSettings {
    SecureSettings {
        storage_dir: None,
        cache_dir: None,
        version_check: None,
        proxy_env_vars: None,
        ubuntu_mirror: None,
        alpine_mirror: None,
        site_settings: Vec::new(),
        external_volumes: Vec::new(),
        push_image_script: None,
        build_lock_wait: None,
        auto_apply_sysctl: None,
        environ: Vec::new(),
    }
}

fn empty_site() -> SiteSettings {
    SiteSettings {
        storage_dir: None,
        cache_dir: None,
        version_check: None,
        ubuntu_mirror: None,
        alpine_mirror: None,
        external_volumes: Vec::new(),
        push_image_script: None,
        build_lock_wait: None,
        auto_apply_sysctl: None,
        environ: Vec::new(),
    }
}

#[test]
fn expand_home_rewrites_a_leading_tilde() {
    let home = Some("/home/user".to_string());
    assert_eq!(expand_home("~/cache", &home).unwrap().as_str(), "/home/user/cache");
    assert_eq!(expand_home("/var/cache", &home).unwrap().as_str(), "/var/cache");
    assert_eq!(expand_home("/var/cache", &None).unwrap().as_str(), "/var/cache");
    assert!(expand_home("~/cache", &None).is_none());
}

#[test]
fn merge_expands_and_overrides() {
    let mut cfg = empty_secure();
    cfg.storage_dir = Some("~/storage".to_string());
    cfg.cache_dir = Some("/var/cache/vagga".to_string());
    cfg.version_check = Some(false);
    cfg.ubuntu_mirror = Some("http://mirror/ubuntu".to_string());
    cfg.environ.push(StrEntry { key: "A".to_string(), value: "1".to_string() });
    let mut ext = empty_merged();
    let mut int_settings = default_settings();
    let home = Some("/home/user".to_string());
    merge_settings(&cfg, "/work/project", &home, &mut ext, &mut int_settings).unwrap();
    assert_eq!(ext.storage_dir.as_deref(), Some("/home/user/storage"));
    assert_eq!(ext.cache_dir.as_deref(), Some("/var/cache/vagga"));
    assert!(ext.shared_cache);
    assert!(!int_settings.version_check);
    assert!(int_settings.proxy_env_vars);
    assert_eq!(int_settings.ubuntu_mirror.as_deref(), Some("http://mirror/ubuntu"));
    assert_eq!(int_settings.environ.len(), 1);
    assert_eq!(int_settings.environ[0].key.as_str(), "A");
}

#[test]
fn merge_without_home_is_fatal_and_changes_nothing() {
    let mut cfg = empty_secure();
    cfg.storage_dir = Some("~/storage".to_string());
    let mut ext = empty_merged();
    let mut int_settings = default_settings();
    let r = merge_settings(&cfg, "/work/project", &None, &mut ext, &mut int_settings);
    assert_eq!(r, Err(SettingsError::StorageDirNoHome));
    assert!(ext.storage_dir.is_none());
    assert_eq!(
        SettingsError::StorageDirNoHome.describe().as_str(),
        "Can't expand tilde `~` in storage dir no HOME found",
    );
    assert_eq!(
        SettingsError::CacheDirNoHome.describe().as_str(),
        "Can't expand tilde `~` in cache dir no HOME found",
    );
}

#[test]
fn cache_dir_without_home_is_fatal_after_storage_is_set() {
    let mut cfg = empty_secure();
    cfg.storage_dir = Some("/srv/storage".to_string());
    cfg.cache_dir = Some("~/cache".to_string());
    let mut ext = empty_merged();
    let mut int_settings = default_settings();
    let r = merge_settings(&cfg, "/work/project", &None, &mut ext, &mut int_settings);
    assert_eq!(r, Err(SettingsError::CacheDirNoHome));
    // the layers apply in order: storage was already set when cache failed
    assert_eq!(ext.storage_dir.as_deref(), Some("/srv/storage"));
    assert!(ext.cache_dir.is_none());
    assert!(!ext.shared_cache);
}

#[test]
fn site_block_overrides_for_its_project_only() {
    let mut site = empty_site();
    site.storage_dir = Some("~/unexpanded".to_string());
    site.version_check = Some(false);
    let mut cfg = empty_secure();
    cfg.storage_dir = Some("/srv/storage".to_string());
    cfg.site_settings.push(SiteEntry { root: "/work/project".to_string(), settings: site });

    let mut ext = empty_merged();
    let mut int_settings = default_settings();
    merge_settings(&cfg, "/work/project", &None, &mut ext, &mut int_settings).unwrap();
    // the site directory is taken verbatim, with no expansion
    assert_eq!(ext.storage_dir.as_deref(), Some("~/unexpanded"));
    assert!(!int_settings.version_check);

    let mut ext2 = empty_merged();
    let mut int2 = default_settings();
    merge_settings(&cfg, "/work/other", &None, &mut ext2, &mut int2).unwrap();
    assert_eq!(ext2.storage_dir.as_deref(), Some("/srv/storage"));
    assert!(int2.version_check);
}

#[test]
fn insecure_layer_sets_only_its_fields() {
    let cfg = InsecureSettings {
        version_check: Some(false),
        shared_cache: Some(true),
        ubuntu_mirror: None,
        alpine_mirror: Some("http://mirror/alpine".to_string()),
        build_lock_wait: Some(true),
        environ: vec![StrEntry { key: "B".to_string(), value: "2".to_string() }],
    };
    let mut ext = empty_merged();
    let mut int_settings = default_settings();
    merge_insecure_settings(&cfg, &mut ext, &mut int_settings);
    assert!(ext.shared_cache);
    assert!(!int_settings.version_check);
    assert_eq!(int_settings.alpine_mirror.as_deref(), Some("http://mirror/alpine"));
    assert!(int_settings.build_lock_wait);
    assert_eq!(int_settings.environ.len(), 1);
    assert!(ext.storage_dir.is_none());
}

#[test]
fn later_environ_pairs_win() {
    let mut cfg = empty_secure();
    cfg.environ.push(StrEntry { key: "A".to_string(), value: "1".to_string() });
    let mut site = empty_site();
    site.environ.push(StrEntry { key: "A".to_string(), value: "2".to_string() });
    cfg.site_settings.push(SiteEntry { root: "/p".to_string(), settings: site });
    let mut ext = empty_merged();
    let mut int_settings = default_settings();
    merge_settings(&cfg, "/p", &None, &mut ext, &mut int_settings).unwrap();
    // pairs are applied in order; the site pair comes later and wins
    let last = int_settings.environ.iter().rev().find(|e| e.key.as_str() == "A").unwrap();
    assert_eq!(last.value.as_str(), "2");
}
