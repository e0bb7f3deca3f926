use pls::package_info::PackageInfo;
use pls::repo::{
    bundle_packages, contains_package, is_package_file, new_index, package_meta, plan_updates, record_package,
    BundleError, PackageMeta, RepoIndex,
};

fn info(name: &str, version: &str, deps: &[&str]) -> PackageInfo {
    PackageInfo {
        name: name.to_string(),
        version: version.to_string(),
        depend: deps.iter().map(|s| s.to_string()).collect(),
    }
}

fn meta(version: &str) -> PackageMeta {
    PackageMeta { version: version.to_string(), size: 1, sha256: String::new(), deps: Vec::new(), desc: String::new() }
}

fn index_with(packages: Vec<(&str, &str)>, bundles: Vec<(&str, Vec<&str>)>) -> RepoIndex {
    new_index(
        "2024-01-01".to_string(),
        packages.into_iter().map(|(n, v)| (n.to_string(), meta(v))).collect(),
        bundles
            .into_iter()
            .map(|(n, ps)| (n.to_string(), ps.into_iter().map(|p| p.to_string()).collect()))
            .collect(),
    )
}

#[test]
fn package_meta_describes_package() {
    let (name, m) = package_meta(info("yplay", "1.0", &["libmpv"]), 42, "ab".to_string());
    assert_eq!(name, "yplay");
    assert_eq!(m.version, "1.0");
    assert_eq!(m.size, 42);
    assert_eq!(m.sha256, "ab");
    assert_eq!(m.deps, vec!["libmpv".to_string()]);
    assert_eq!(m.desc, "yplay package");
}

#[test]
fn recording_replaces_same_name() {
    let mut packages = Vec::new();
    record_package(&mut packages, info("a", "1", &[]), 1, "x".to_string());
    record_package(&mut packages, info("b", "1", &[]), 2, "y".to_string());
    record_package(&mut packages, info("a", "2", &[]), 3, "z".to_string());
    assert_eq!(packages.len(), 2);
    assert_eq!(packages[0].0, "a");
    assert_eq!(packages[0].1.version, "2");
    assert_eq!(packages[0].1.size, 3);
    assert_eq!(packages[1].0, "b");
    let index = new_index("today".to_string(), packages, Vec::new());
    assert_eq!(index.version, 1);
    assert_eq!(index.updated, "today");
    assert!(contains_package(&index, "a"));
    assert!(!contains_package(&index, "c"));
}

#[test]
fn package_files_are_recognized_by_extension() {
    assert!(is_package_file("yplay.pls"));
    assert!(is_package_file("a.b.pls"));
    assert!(!is_package_file(".pls"));
    assert!(!is_package_file("pls"));
    assert!(!is_package_file("yplay.deb"));
    assert!(!is_package_file("yplay.pls.bak"));
}

#[test]
fn updates_only_for_other_versions() {
    let index = index_with(vec![("a", "2"), ("b", "1"), ("c", "5")], vec![]);
    let installed = vec![
        ("a".to_string(), "1".to_string()),
        ("b".to_string(), "1".to_string()),
        ("z".to_string(), "1".to_string()),
        ("c".to_string(), "6".to_string()),
    ];
    let plan = plan_updates(&installed, &index);
    assert_eq!(
        plan,
        vec![
            ("a".to_string(), "1".to_string(), "2".to_string()),
            ("c".to_string(), "6".to_string(), "5".to_string()),
        ]
    );
}

#[test]
fn bundle_lookup() {
    let index = index_with(vec![], vec![("gaming", vec!["steam", "lutris"]), ("none", vec![])]);
    assert_eq!(bundle_packages(&index, "gaming").ok(), Some(vec!["steam".to_string(), "lutris".to_string()]));
    assert!(matches!(bundle_packages(&index, "none"), Err(BundleError::Empty)));
    assert!(matches!(bundle_packages(&index, "dev-rust"), Err(BundleError::NotFound)));
}

#[test]
fn added_package_file_is_listed() {
    let file = pls::paths::package_file_path("packages", "yplay");
    let name = file.rsplit('/').next().unwrap();
    assert!(is_package_file(name));
}
