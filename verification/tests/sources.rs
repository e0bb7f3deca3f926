use pls::package_info::PackageInfo;
use pls::paths::{
    cached_package_path, db_entry_path, db_info_path, index_url, installed_binary_dir, installed_binary_path,
    output_dir_or_default, package_file_path, package_url,
};
use pls::source::{
    classify_source, deb_binary_dirs, deb_data_archive, deb_info_content, deb_package_name, looks_like_path,
    resolve_package_path, PackageSource,
};

#[test]
fn path_like_arguments() {
    assert!(looks_like_path("./x.pls"));
    assert!(looks_like_path("x.pls"));
    assert!(looks_like_path("dir/x"));
    assert!(!looks_like_path("yplay"));
    assert_eq!(resolve_package_path("x.pls", true), Some("x.pls".to_string()));
    assert_eq!(resolve_package_path("x.pls", false), None);
    assert_eq!(resolve_package_path("yplay", true), None);
}

#[test]
fn deb_names() {
    assert_eq!(deb_package_name("http://deb.debian.org/pool/main/h/htop/htop_3.2.2-2_amd64.deb"), "htop");
    assert_eq!(deb_package_name("foo.deb.deb"), "foo");
    assert_eq!(deb_package_name("a/b/"), "");
    assert_eq!(deb_package_name("plain"), "plain");
}

#[test]
fn source_classification() {
    match classify_source("./local.pls", true) {
        PackageSource::Local(p) => assert_eq!(p, "./local.pls"),
        _ => panic!("expected a local package"),
    }
    match classify_source("https://x.org/pool/tool_1.0_amd64.deb", false) {
        PackageSource::Deb { url, name } => {
            assert_eq!(url, "https://x.org/pool/tool_1.0_amd64.deb");
            assert_eq!(name, "tool");
        }
        _ => panic!("expected a deb"),
    }
    match classify_source("./missing.deb", false) {
        PackageSource::Deb { name, .. } => assert_eq!(name, "missing"),
        _ => panic!("expected a deb"),
    }
    match classify_source("yplay", false) {
        PackageSource::Repository(n) => assert_eq!(n, "yplay"),
        _ => panic!("expected the repository"),
    }
}

#[test]
fn deb_helpers() {
    assert_eq!(deb_data_archive("/d", false, true, true), Some("/d/data.tar.zst".to_string()));
    assert_eq!(deb_data_archive("/d", true, true, true), Some("/d/data.tar.xz".to_string()));
    assert_eq!(deb_data_archive("/d", false, false, true), Some("/d/data.tar.gz".to_string()));
    assert_eq!(deb_data_archive("/d", false, false, false), None);
    assert_eq!(
        deb_binary_dirs("/e"),
        vec!["/e/usr/bin".to_string(), "/e/usr/local/bin".to_string(), "/e/bin".to_string()]
    );
    assert_eq!(deb_info_content("htop"), "name = htop\nversion = 1.0.0\n");
}

#[test]
fn paths_and_addresses() {
    assert_eq!(db_entry_path("yplay"), "/var/lib/pls/db/yplay");
    assert_eq!(db_info_path("yplay"), "/var/lib/pls/db/yplay/info");
    assert_eq!(installed_binary_path("yplay"), "//usr/bin/yplay");
    assert_eq!(installed_binary_dir(), "//usr/bin");
    assert_eq!(index_url(), "https://tostcra.github.io/aura-repo/index.json");
    assert_eq!(package_url("  yplay \n"), "https://tostcra.github.io/aura-repo/packages/yplay.pls");
    assert_eq!(cached_package_path("yplay"), "/var/cache/pls/yplay.pls");
    assert!(looks_like_path(&cached_package_path("yplay")));
    assert_eq!(package_file_path("out", "yplay"), "out/yplay.pls");
    assert_eq!(output_dir_or_default(None), "/var/lib/pls/packages");
    assert_eq!(output_dir_or_default(Some("o")), "o");
}

#[test]
fn deb_package_reads_back() {
    let name = deb_package_name("https://mirror/pool/f/foo_2.0_amd64.deb");
    let back = PackageInfo::parse_info(&deb_info_content(&name));
    assert_eq!(back.name, "foo");
    assert_eq!(back.version, "1.0.0");
    assert!(!name.contains('/') && !name.contains('_'));
}
