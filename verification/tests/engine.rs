use vagga::build_step::StepError;
use vagga::context::{Action, Context};
use vagga::digest::Digest;
use vagga::manifest::{DepValue, Manifest, Section, SectionValue};
use vagga::npm::{ensure_npm, npm_deps, npm_install, npm_install_args, scan_features, NpmConfig,
    NpmDependencies, NpmInstall};
use vagga::packages::{parse_feature, Package};
use vagga::packaging::{BuildDeps, Install, Repo};

fn npm_config(install_node: bool, exe: &str) -> NpmConfig {
    NpmConfig { install_node, npm_exe: exe.to_string() }
}

fn section(pairs: &[(&str, &str)]) -> Section {
    let mut s = Section::new();
    for (k, v) in pairs {
        s.insert(k.to_string(), DepValue::Text(v.to_string()));
    }
    s
}

fn deps_step(package: bool, dev: bool, peer: bool, bundled: bool, optional: bool) -> NpmDependencies {
    NpmDependencies { file: "package.json".to_string(), package, dev, peer, bundled, optional }
}

#[test]
fn hashing_same_config_twice_is_identical() {
    let step = npm_config(true, "npm");
    let mut d1 = Digest::new();
    let mut d2 = Digest::new();
    step.hash(&mut d1);
    step.hash(&mut d2);
    assert_eq!(d1.to_bytes(), d2.to_bytes());
    assert_eq!(d1.cache_key(), d2.cache_key());
}

#[test]
fn changing_a_value_changes_the_digest() {
    let mut d1 = Digest::new();
    let mut d2 = Digest::new();
    npm_config(true, "npm").hash(&mut d1);
    npm_config(true, "npm6").hash(&mut d2);
    assert_ne!(d1.to_bytes(), d2.to_bytes());

    let mut d3 = Digest::new();
    let mut d4 = Digest::new();
    npm_config(true, "npm").hash(&mut d3);
    npm_config(false, "npm").hash(&mut d4);
    assert_ne!(d3.to_bytes(), d4.to_bytes());
}

#[test]
fn insertion_order_does_not_change_the_digest() {
    // the same mapping, walked in two different orders while decoding
    let one = section(&[("alpha", "1.0.0"), ("beta", "2.0.0"), ("gamma", "3.0.0")]);
    let two = section(&[("gamma", "3.0.0"), ("alpha", "1.0.0"), ("beta", "2.0.0")]);
    let mut m1 = Manifest::new();
    m1.add("dependencies".to_string(), SectionValue::Mapping(one));
    let mut m2 = Manifest::new();
    m2.add("dependencies".to_string(), SectionValue::Mapping(two));
    let step = deps_step(true, true, false, true, false);
    let mut d1 = Digest::new();
    let mut d2 = Digest::new();
    step.hash(&m1, &mut d1).unwrap();
    step.hash(&m2, &mut d2).unwrap();
    assert_eq!(d1.to_bytes(), d2.to_bytes());
}

#[test]
fn changing_a_leaf_changes_the_manifest_digest() {
    let mut m1 = Manifest::new();
    m1.add("dependencies".to_string(), SectionValue::Mapping(section(&[("alpha", "1.0.0")])));
    let mut m2 = Manifest::new();
    m2.add("dependencies".to_string(), SectionValue::Mapping(section(&[("alpha", "1.0.1")])));
    let step = deps_step(true, true, false, true, false);
    let mut d1 = Digest::new();
    let mut d2 = Digest::new();
    step.hash(&m1, &mut d1).unwrap();
    step.hash(&m2, &mut d2).unwrap();
    assert_ne!(d1.to_bytes(), d2.to_bytes());
}

#[test]
fn hashing_rejects_a_non_string_leaf_naming_key_and_value() {
    let mut odd = Section::new();
    odd.insert("alpha".to_string(), DepValue::Other("[1,2]".to_string()));
    let mut m = Manifest::new();
    m.add("dependencies".to_string(), SectionValue::Mapping(odd));
    let step = deps_step(true, false, false, false, false);
    let mut d = Digest::new();
    match step.hash(&m, &mut d) {
        Err(StepError::WrongVersion(key, value)) => {
            assert_eq!(key.as_str(), "alpha");
            assert_eq!(value.as_str(), "[1,2]");
        },
        other => panic!("expected a wrong-version error, got {:?}", other),
    }
    // the digest is untouched on failure
    assert_eq!(d.to_bytes(), Digest::new().to_bytes());
}

#[test]
fn hashing_rejects_a_present_non_mapping_section() {
    let mut m = Manifest::new();
    m.add("devDependencies".to_string(), SectionValue::NotMapping);
    let step = deps_step(true, true, false, false, false);
    let mut d = Digest::new();
    match step.hash(&m, &mut d) {
        Err(StepError::NotMapping(key)) => {
            assert_eq!(key.as_str(), "devDependencies");
        },
        other => panic!("expected a not-a-mapping error, got {:?}", other),
    }
    assert_eq!(d.to_bytes(), Digest::new().to_bytes());
}

#[test]
fn hashing_ignores_sections_that_are_not_enabled() {
    let mut odd = Section::new();
    odd.insert("weird".to_string(), DepValue::Other("false".to_string()));
    let mut m = Manifest::new();
    m.add("optionalDependencies".to_string(), SectionValue::Mapping(odd));
    m.add("dependencies".to_string(), SectionValue::Mapping(section(&[("a", "1.0")])));
    // the optional toggle is off: only the enabled section is checked and fed
    let step = deps_step(true, true, false, true, false);
    let mut d = Digest::new();
    step.hash(&m, &mut d).unwrap();
    assert_ne!(d.to_bytes(), Digest::new().to_bytes());
}

#[test]
fn package_list_digests_follow_the_sorted_list() {
    let mut d1 = Digest::new();
    let mut d2 = Digest::new();
    let mut d3 = Digest::new();
    Install(vec!["a".to_string(), "b".to_string()]).hash(&mut d1);
    Install(vec!["a".to_string(), "b".to_string()]).hash(&mut d2);
    Install(vec!["a".to_string(), "c".to_string()]).hash(&mut d3);
    assert_eq!(d1.to_bytes(), d2.to_bytes());
    assert_ne!(d1.to_bytes(), d3.to_bytes());
    // the name list is sorted before it is mixed in: recipes naming the
    // same packages in a different order share a cache key
    let mut d5 = Digest::new();
    Install(vec!["b".to_string(), "a".to_string()]).hash(&mut d5);
    assert_eq!(d1.to_bytes(), d5.to_bytes());
    let mut d6 = Digest::new();
    BuildDeps(vec!["b".to_string(), "a".to_string()]).hash(&mut d6);
    assert_eq!(d1.to_bytes(), d6.to_bytes());
    // a repository step hashes differently from a package list
    let mut d4 = Digest::new();
    Repo("a".to_string()).hash(&mut d4);
    assert_ne!(d1.to_bytes(), d4.to_bytes());
}

#[test]
fn cache_key_is_a_real_digest() {
    let mut d = Digest::new();
    d.field("name", "repo");
    let bytes = d.to_bytes();
    let key = d.cache_key();
    assert_eq!(key.len(), 32);
    assert_ne!(key, bytes);
    let mut other = Digest::new();
    other.field("name", "other-repo");
    assert_ne!(other.cache_key(), key);
    // the empty stream still has a 32-byte key
    let empty = Digest::new();
    assert_eq!(empty.cache_key().len(), 32);
    assert_ne!(empty.cache_key(), Vec::<u8>::new());
}

#[test]
fn scan_features_always_requests_baseline() {
    let with_node = scan_features(&npm_config(true, "npm"), &vec![]);
    assert!(with_node.contains(&Package::BuildEssential));
    assert!(with_node.contains(&Package::NodeJs));
    assert!(with_node.contains(&Package::NodeJsDev));
    assert!(with_node.contains(&Package::Npm));

    let without_node = scan_features(&npm_config(false, "npm"), &vec![]);
    assert!(without_node.contains(&Package::BuildEssential));
    assert!(!without_node.contains(&Package::NodeJs));
    assert!(!without_node.contains(&Package::NodeJsDev));
    assert!(!without_node.contains(&Package::Npm));
}

#[test]
fn parse_feature_classifies_git_sources_only() {
    let mut features = Vec::new();
    parse_feature("git://example/repo", &mut features);
    assert_eq!(features, vec![Package::Git]);
    parse_feature("1.2.3", &mut features);
    parse_feature("^2.0", &mut features);
    parse_feature("git", &mut features);
    assert_eq!(features, vec![Package::Git]);
}

#[test]
fn ensure_npm_deduplicates_tokens() {
    let features = vec![Package::Git, Package::BuildEssential, Package::Git, Package::Git];
    match ensure_npm(&features) {
        Action::EnsureFeatures(f) => {
            assert_eq!(f, vec![Package::Git, Package::BuildEssential]);
        },
        other => panic!("unexpected action: {:?}", other),
    }
}

#[test]
fn npm_install_args_are_fixed() {
    let args = npm_install_args(&vec!["left-pad@1.0.0".to_string()]);
    assert_eq!(args, vec![
        "install".to_string(),
        "--global".to_string(),
        "--user=root".to_string(),
        "--cache=/tmp/npm-cache".to_string(),
        "left-pad@1.0.0".to_string(),
    ]);
}

#[test]
fn empty_spec_list_runs_no_process() {
    let mut ctx = Context::new();
    let actions = npm_install(&mut ctx, &vec![]);
    assert_eq!(actions.len(), 1);
    assert!(matches!(actions[0], Action::EnsureFeatures(_)));
}

#[test]
fn manifest_scan_collects_specs_and_features() {
    // {"dependencies":{"a":"1.0.0","b":"git://x"},"devDependencies":{"c":"2.0.0"}}
    let mut m = Manifest::new();
    m.add("dependencies".to_string(),
        SectionValue::Mapping(section(&[("a", "1.0.0"), ("b", "git://x")])));
    m.add("devDependencies".to_string(), SectionValue::Mapping(section(&[("c", "2.0.0")])));
    let info = deps_step(true, true, false, false, false);
    let mut ctx = Context::new();
    let actions = npm_deps(&mut ctx, &info, &m).expect("scan must succeed");
    assert_eq!(actions.len(), 2);
    match &actions[0] {
        Action::EnsureFeatures(f) => {
            assert!(f.contains(&Package::BuildEssential));
            assert_eq!(f.iter().filter(|p| **p == Package::Git).count(), 1);
        },
        other => panic!("unexpected action: {:?}", other),
    }
    match &actions[1] {
        Action::RunNpmInstall { exe, args } => {
            assert_eq!(exe.as_str(), "npm");
            assert_eq!(args[4..].to_vec(), vec![
                "a@1.0.0".to_string(),
                "b@git://x".to_string(),
                "c@2.0.0".to_string(),
            ]);
        },
        other => panic!("unexpected action: {:?}", other),
    }
}

#[test]
fn empty_manifest_sections_run_no_process() {
    let m = Manifest::new();
    let info = deps_step(true, true, true, true, true);
    let mut ctx = Context::new();
    let actions = npm_deps(&mut ctx, &info, &m).expect("absent sections are fine");
    assert_eq!(actions.len(), 1);
    assert!(matches!(actions[0], Action::EnsureFeatures(_)));
}

#[test]
fn non_string_leaf_is_fatal_and_names_the_key() {
    let mut odd = Section::new();
    odd.insert("good".to_string(), DepValue::Text("1.0".to_string()));
    odd.insert("weird".to_string(), DepValue::Other("17".to_string()));
    let mut m = Manifest::new();
    m.add("dependencies".to_string(), SectionValue::Mapping(odd));
    let info = deps_step(true, false, false, false, false);
    let mut ctx = Context::new();
    match npm_deps(&mut ctx, &info, &m) {
        Err(StepError::WrongVersion(key, value)) => {
            assert_eq!(key.as_str(), "weird");
            assert_eq!(value.as_str(), "17");
            let msg = StepError::WrongVersion(key, value).describe();
            assert_eq!(msg.as_str(), "Package weird has wrong version 17");
        },
        other => panic!("expected a wrong-version error, got {:?}", other),
    }
}

#[test]
fn non_mapping_section_is_fatal() {
    let mut m = Manifest::new();
    m.add("dependencies".to_string(), SectionValue::NotMapping);
    let info = deps_step(true, false, false, false, false);
    let mut ctx = Context::new();
    match npm_deps(&mut ctx, &info, &m) {
        Err(StepError::NotMapping(key)) => {
            assert_eq!(key.as_str(), "dependencies");
            let msg = StepError::NotMapping(key).describe();
            assert_eq!(msg.as_str(), "The dependencies is not a mapping (JSON object)");
        },
        other => panic!("expected a not-a-mapping error, got {:?}", other),
    }
}

#[test]
fn unselected_sections_are_not_scanned() {
    let mut odd = Section::new();
    odd.insert("weird".to_string(), DepValue::Other("null".to_string()));
    let mut m = Manifest::new();
    m.add("optionalDependencies".to_string(), SectionValue::Mapping(odd));
    // optional defaults to off: the bad leaf is never looked at
    let info = deps_step(true, true, false, true, false);
    let mut ctx = Context::new();
    assert!(npm_deps(&mut ctx, &info, &m).is_ok());
}

#[test]
fn install_moves_names_out_of_build_only() {
    let mut ctx = Context::new();
    let deps = BuildDeps(vec!["gcc".to_string(), "make".to_string()]);
    deps.build(&mut ctx, true);
    assert!(ctx.build_deps.contains("gcc"));
    assert!(ctx.build_deps.contains("make"));
    let install = Install(vec!["gcc".to_string()]);
    install.build(&mut ctx, true);
    assert!(ctx.packages.contains("gcc"));
    assert!(!ctx.build_deps.contains("gcc"));
    assert!(ctx.build_deps.contains("make"));
}

#[test]
fn already_permanent_names_are_never_build_only() {
    let mut ctx = Context::new();
    Install(vec!["curl".to_string()]).build(&mut ctx, true);
    BuildDeps(vec!["curl".to_string(), "jq".to_string()]).build(&mut ctx, true);
    assert!(!ctx.build_deps.contains("curl"));
    assert!(ctx.build_deps.contains("jq"));
}

#[test]
fn dry_pass_updates_bookkeeping_but_runs_nothing() {
    let mut ctx = Context::new();
    let install = Install(vec!["git".to_string()]);
    let actions = install.build(&mut ctx, false);
    assert!(actions.is_empty());
    assert!(ctx.packages.contains("git"));

    let config = npm_config(false, "npm7");
    let actions = config.build(&mut ctx, false);
    assert!(actions.is_empty());
    assert!(!ctx.npm_settings.install_node);
    assert_eq!(ctx.npm_settings.npm_exe.as_str(), "npm7");

    let npm = NpmInstall(vec!["tape@4".to_string()]);
    let actions = npm.build(&mut ctx, false);
    assert_eq!(actions.len(), 1);
    assert!(matches!(actions[0], Action::NpmConfigure));

    let deps = BuildDeps(vec!["gcc".to_string()]);
    let actions = deps.build(&mut ctx, false);
    assert!(actions.is_empty());
    assert!(!ctx.build_deps.contains("gcc"));
}

#[test]
fn execute_pass_produces_install_actions() {
    let mut ctx = Context::new();
    let install = Install(vec!["git".to_string()]);
    let actions = install.build(&mut ctx, true);
    assert_eq!(actions.len(), 1);
    match &actions[0] {
        Action::InstallPackages(ns) => assert_eq!(ns, &vec!["git".to_string()]),
        other => panic!("unexpected action: {:?}", other),
    }

    let repo = Repo("universe".to_string());
    let actions = repo.build(&mut ctx, true);
    match &actions[0] {
        Action::AddRepo(name) => assert_eq!(name.as_str(), "universe"),
        other => panic!("unexpected action: {:?}", other),
    }
    assert!(repo.build(&mut ctx, false).is_empty());
}

#[test]
fn npm_install_step_configures_then_installs() {
    let mut ctx = Context::new();
    let step = NpmInstall(vec!["left-pad@1.0.0".to_string()]);
    let actions = step.build(&mut ctx, true);
    assert_eq!(actions.len(), 3);
    assert!(matches!(actions[0], Action::NpmConfigure));
    assert!(matches!(actions[1], Action::EnsureFeatures(_)));
    match &actions[2] {
        Action::RunNpmInstall { exe, args } => {
            assert_eq!(exe.as_str(), "npm");
            assert_eq!(args.last().unwrap().as_str(), "left-pad@1.0.0");
        },
        other => panic!("unexpected action: {:?}", other),
    }
}

#[test]
fn step_names_are_stable() {
    assert_eq!(Install(vec![]).name(), "Install");
    assert_eq!(BuildDeps(vec![]).name(), "BuildDeps");
    assert_eq!(Repo(String::new()).name(), "Repo");
    assert_eq!(npm_config(true, "npm").name(), "NpmConfig");
    assert_eq!(NpmInstall(vec![]).name(), "NpmInstall");
    assert_eq!(deps_step(true, true, false, true, false).name(), "NpmDependencies");
    assert!(Install(vec![]).is_dependent_on().is_none());
    assert!(NpmInstall(vec![]).is_dependent_on().is_none());
}

#[test]
fn manifest_find_takes_the_first_entry() {
    let mut m = Manifest::new();
    m.add("dependencies".to_string(), SectionValue::NotMapping);
    m.add("dependencies".to_string(), SectionValue::Mapping(Section::new()));
    match m.find("dependencies") {
        Some(SectionValue::NotMapping) => {},
        other => panic!("expected the first entry, got {:?}", other),
    }
    assert!(m.find("devDependencies").is_none());
}

#[test]
fn section_insert_replaces_existing_keys() {
    let mut s = Section::new();
    s.insert("a".to_string(), DepValue::Text("1".to_string()));
    s.insert("a".to_string(), DepValue::Text("2".to_string()));
    assert_eq!(s.len(), 1);
    let mut m = Manifest::new();
    m.add("dependencies".to_string(), SectionValue::Mapping(s));
    let mut ctx = Context::new();
    let info = deps_step(true, false, false, false, false);
    let actions = npm_deps(&mut ctx, &info, &m).unwrap();
    match &actions[1] {
        Action::RunNpmInstall { args, .. } => {
            assert_eq!(args.last().unwrap().as_str(), "a@2");
        },
        other => panic!("unexpected action: {:?}", other),
    }
}

#[test]
fn bundled_toggle_covers_both_aliases() {
    let mut m = Manifest::new();
    m.add("bundledDependencies".to_string(),
        SectionValue::Mapping(section(&[("x", "1.0")])));
    m.add("bundleDependencies".to_string(),
        SectionValue::Mapping(section(&[("y", "2.0")])));
    let info = deps_step(false, false, false, true, false);
    let mut ctx = Context::new();
    let actions = npm_deps(&mut ctx, &info, &m).unwrap();
    match &actions[1] {
        Action::RunNpmInstall { args, .. } => {
            assert_eq!(args[4..].to_vec(), vec!["x@1.0".to_string(), "y@2.0".to_string()]);
        },
        other => panic!("unexpected action: {:?}", other),
    }
}
