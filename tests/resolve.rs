use craft::artifacts::{ResolveArtifacts, ResolvedItem};
use craft::cache::{location, CacheAction, EntryState, PersistentCache};
use craft::config::parse_config;
use craft::package::{NpmPackage, Package, PackageType, RegistryKey};
use craft::registry::{resolve, resolve_into, select_version, NetworkError, Request};
use craft::version::{Satisfies, Version, VersionImpl};
use craft::constraint::VersionConstraint;

fn record(name: &str, version: &str) -> NpmPackage {
    NpmPackage::new(
        name.to_string(),
        version.to_string(),
        "shasum".to_string(),
        format!("https://registry.npmjs.org/{name}/-/{name}-{version}.tgz"),
    )
}

fn key(name: &str, version: &str) -> RegistryKey {
    RegistryKey { name: name.to_string(), version: version.to_string() }
}

#[test]
fn test_resolve_artifacts() {
    let mut resolve_artifacts = ResolveArtifacts::new();
    let package = record("package", "1.0.0");
    resolve_artifacts.insert(
        "package".to_string(),
        ResolvedItem::with_no_parent(package, "1.2.0".to_string(), PackageType::Prod("1.2.0".to_string())),
    );
    assert_eq!(resolve_artifacts.get("package").unwrap().package.version, "1.0.0");
}

#[test]
fn test_get_artifacts() {
    let mut resolve_artifacts = ResolveArtifacts::new();
    let package = record("package", "1.0.0");
    resolve_artifacts.insert(
        "package".to_string(),
        ResolvedItem::with_no_parent(package, "1.0.0".to_string(), PackageType::Prod("1.2.0".to_string())),
    );
    assert_eq!(resolve_artifacts.get_artifacts().len(), 1);
}

#[test]
fn insert_replaces_same_key() {
    let mut t = ResolveArtifacts::new();
    t.insert("a".to_string(), ResolvedItem::with_no_parent(record("a", "1.0.0"), "1.0.0".to_string(), PackageType::Dev("1".to_string())));
    t.insert("b".to_string(), ResolvedItem::with_no_parent(record("b", "2.0.0"), "2.0.0".to_string(), PackageType::Dev("2".to_string())));
    t.insert("a".to_string(), ResolvedItem::with_no_parent(record("a", "1.1.0"), "1.1.0".to_string(), PackageType::Dev("1".to_string())));
    assert_eq!(t.get("a").unwrap().package.version, "1.1.0");
    assert_eq!(t.get("b").unwrap().package.version, "2.0.0");
    assert!(t.get("c").is_none());
    let all = t.get_artifacts();
    assert_eq!(all.len(), 2);
    let a = all.iter().find(|i| i.package.name == "a").unwrap();
    assert_eq!(a.specifier, "1.1.0");
    assert!(a.parent.is_none());
    assert!(matches!(&a.package_type, PackageType::Dev(s) if s == "1"));
}

#[test]
fn star_specifier_becomes_caret_on_resolved_version() {
    let item = ResolvedItem::new(record("p", "1.0.0"), None, "*".to_string(), PackageType::Prod("*".to_string()));
    assert_eq!(item.specifier, "^1.0.0");
    let item = ResolvedItem::new(record("p", "1.0.0"), Some(vec![key("root", "0.1.0")]), "~1.0.0".to_string(), PackageType::Optional("~1.0.0".to_string()));
    assert_eq!(item.specifier, "~1.0.0");
    assert_eq!(item.parent.unwrap()[0].name, "root");
}

#[test]
fn selection_takes_first_satisfying_in_registry_order() {
    let p = Package::new("package".to_string(), "^1.0.0".to_string()).unwrap();
    let versions = vec![
        ("0.9.0".to_string(), record("package", "0.9.0")),
        ("1.0.0".to_string(), record("package", "1.0.0")),
        ("1.2.0".to_string(), record("package", "1.2.0")),
    ];
    assert_eq!(select_version(&p, &versions).unwrap().version, "1.0.0");
    let p = Package::new("package".to_string(), "1.x".to_string()).unwrap();
    assert_eq!(select_version(&p, &versions).unwrap().version, "1.0.0");
    let p = Package::new("package".to_string(), "3.x".to_string()).unwrap();
    match select_version(&p, &versions) {
        Err(NetworkError::FailedToFetchVersion(v)) => assert_eq!(v, "3.x"),
        Ok(_) => panic!("no version should match"),
    }
}

#[test]
fn manifest_scenario_resolves_against_registry() {
    let mut table = ResolveArtifacts::new();
    let candidates = vec![record("package", "0.9.0"), record("package", "1.0.0"), record("package", "1.2.0")];
    let p = Package::new("package".to_string(), "^1.0.0".to_string()).unwrap();
    let k = resolve_into(&mut table, &p, &candidates, None, PackageType::Prod("^1.0.0".to_string())).unwrap();
    assert_eq!(k, key("package", "1.0.0"));
    assert_eq!(table.get("package@1.0.0").unwrap().specifier, "^1.0.0");
    let p = Package::new("package".to_string(), "2.x".to_string()).unwrap();
    let e = resolve_into(&mut table, &p, &candidates, None, PackageType::Prod("2.x".to_string())).unwrap_err();
    assert_eq!(e.specifier, "2.x");
}

#[test]
fn shared_dependency_is_fetched_once() {
    let mut table = ResolveArtifacts::new();
    let mut cache = PersistentCache::new();
    let candidates = vec![record("shared-lib", "2.0.0"), record("shared-lib", "2.1.0")];
    let a = Package::new("shared-lib".to_string(), "^2.1.0".to_string()).unwrap();
    let b = Package::new("shared-lib".to_string(), "~2.1.0".to_string()).unwrap();
    let ka = resolve_into(&mut table, &a, &candidates, Some(vec![key("root-a", "1.0.0")]), PackageType::Prod("^2.1.0".to_string())).unwrap();
    let kb = resolve_into(&mut table, &b, &candidates, Some(vec![key("root-b", "1.0.0")]), PackageType::Prod("~2.1.0".to_string())).unwrap();
    assert_eq!(ka, kb);
    assert_eq!(table.get_artifacts().len(), 1);
    assert_eq!(table.get("shared-lib@2.1.0").unwrap().parent.as_ref().unwrap()[0].name, "root-a");
    let mut fetches = 0;
    let mut locations = vec![];
    for k in [&ka, &kb] {
        match cache.get_or_fetch(k) {
            CacheAction::Fetch(l) => {
                fetches += 1;
                locations.push(l);
            }
            CacheAction::Wait(l) | CacheAction::Reuse(l) => locations.push(l),
        }
    }
    assert_eq!(fetches, 1);
    assert_eq!(locations[0], locations[1]);
    assert_eq!(locations[0], "shared-lib@2.1.0");
}

#[test]
fn cache_requests_fetch_wait_then_reuse() {
    let mut cache = PersistentCache::new();
    let k = key("left-pad", "1.3.0");
    assert!(matches!(cache.get_or_fetch(&k), CacheAction::Fetch(_)));
    assert_eq!(cache.state(&k), Some(EntryState::Fetching));
    assert!(matches!(cache.get_or_fetch(&k), CacheAction::Wait(_)));
    cache.complete(&k);
    assert!(matches!(cache.get_or_fetch(&k), CacheAction::Reuse(l) if l == "left-pad@1.3.0"));
    let other = key("other", "0.0.1");
    assert!(matches!(cache.get_or_fetch(&other), CacheAction::Fetch(_)));
    cache.abandon(&other);
    assert_eq!(cache.state(&other), None);
    cache.abandon(&k);
    assert_eq!(cache.state(&k), Some(EntryState::Ready));
}

#[test]
fn cache_clean_keeps_referenced_and_in_flight() {
    let mut cache = PersistentCache::new();
    let a = key("a", "1.0.0");
    let b = key("b", "1.0.0");
    let c = key("c", "1.0.0");
    for k in [&a, &b, &c] {
        cache.get_or_fetch(k);
    }
    cache.complete(&a);
    cache.complete(&b);
    let removed = cache.clean(&vec![a.clone()]);
    assert_eq!(removed, vec![b.clone()]);
    assert_eq!(cache.state(&a), Some(EntryState::Ready));
    assert_eq!(cache.state(&b), None);
    assert_eq!(cache.state(&c), Some(EntryState::Fetching));
    assert_eq!(location(&a), "a@1.0.0");
}

#[test]
fn config_lines_set_keys_last_wins() {
    let conf = parse_config("registry=https://example.org/\nstrict\nstore=one=two\nregistry=second".to_string());
    let get = |k: &str| conf.iter().find(|(key, _)| key == k).map(|(_, v)| v.clone());
    assert_eq!(get("registry"), Some(Some("second".to_string())));
    assert_eq!(get("strict"), Some(None));
    assert_eq!(get("store"), Some(Some("one".to_string())));
    assert_eq!(conf.len(), 3);
    let empty = parse_config(String::new());
    assert_eq!(empty, vec![(String::new(), None)]);
}

#[test]
fn package_text() {
    let p = Package::new("left-pad".to_string(), "^1.3.0".to_string()).unwrap();
    assert_eq!(p.to_string(), "left-pad@^1.3.0");
    assert!(Package::new("x".to_string(), "nope".to_string()).is_err());
}

fn request(name: &str, expr: &str, versions: &[&str], parent: Option<Vec<RegistryKey>>) -> Request {
    Request {
        package: Package::new(name.to_string(), expr.to_string()).unwrap(),
        candidates: versions.iter().map(|v| record(name, v)).collect(),
        parent,
        package_type: PackageType::Prod(expr.to_string()),
    }
}

#[test]
fn resolve_builds_deduplicated_table() {
    let requests = vec![
        request("package", "^1.0.0", &["0.9.0", "1.0.0", "1.2.0"], None),
        request("shared-lib", "^2.1.0", &["2.0.0", "2.1.0"], Some(vec![key("package", "1.0.0")])),
        request("shared-lib", "~2.1.0", &["2.0.0", "2.1.0"], Some(vec![key("other", "3.0.0")])),
        request("anything", "*", &["0.1.0", "0.2.0"], None),
    ];
    let table = resolve(&requests).unwrap();
    assert_eq!(table.get_artifacts().len(), 3);
    assert_eq!(table.get("package@1.0.0").unwrap().package.version, "1.0.0");
    assert_eq!(table.get("shared-lib@2.1.0").unwrap().specifier, "^2.1.0");
    assert_eq!(table.get("anything@0.1.0").unwrap().specifier, "^0.1.0");
}

#[test]
fn resolve_fails_naming_the_specifier() {
    let requests = vec![
        request("package", "^1.0.0", &["1.0.0"], None),
        request("missing", "9.x", &["1.0.0", "2.0.0"], None),
    ];
    assert_eq!(resolve(&requests).unwrap_err().specifier, "9.x");
}

#[test]
fn traits_agree_with_methods() {
    let v = <VersionImpl as Version>::new("1.2.x").unwrap();
    assert!(Version::satisfies(&v, "1.2.9"));
    assert!(!Version::is_exact(&v));
    let c = VersionConstraint::parse("1.2.x").unwrap();
    assert!(Satisfies::satisfies(&c, "1.2.9"));
    assert!(!Satisfies::satisfies(&c, "1.3.0"));
}
