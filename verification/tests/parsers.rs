use pls::package_info::{info_file_content, PackageInfo};

fn strings(xs: &[&str]) -> Vec<String> {
    xs.iter().map(|s| s.to_string()).collect()
}

#[test]
fn info_file_reads_name_version_and_dependencies() {
    let info = PackageInfo::parse_info("name = yplay\nversion = 1.2.3\ndepend = libfoo\ndepend = libbar\n");
    assert_eq!(info.name, "yplay");
    assert_eq!(info.version, "1.2.3");
    assert_eq!(info.depend, strings(&["libfoo", "libbar"]));
}

#[test]
fn info_file_ignores_other_lines_and_keeps_last_value() {
    let info = PackageInfo::parse_info("  name = a  \r\n# comment\nname=b\nname = c\nfoo = bar\nversion = 2 = 3\n");
    assert_eq!(info.name, "c");
    assert_eq!(info.version, "2 = 3");
    assert!(info.depend.is_empty());
}

#[test]
fn info_file_empty_content() {
    let info = PackageInfo::parse_info("");
    assert_eq!(info.name, "");
    assert_eq!(info.version, "");
    assert!(info.depend.is_empty());
}

#[test]
fn info_round_trip_gives_back_name_and_version() {
    let text = info_file_content("yplay", "0.4.0");
    assert_eq!(text, "name = yplay\nversion = 0.4.0\n");
    let info = PackageInfo::parse_info(&text);
    assert_eq!(info.name, "yplay");
    assert_eq!(info.version, "0.4.0");
    assert!(info.depend.is_empty());
}

#[test]
fn info_round_trip_drops_trailing_whitespace() {
    let info = PackageInfo::parse_info(&info_file_content("tool  ", " "));
    assert_eq!(info.name, "tool");
    assert_eq!(info.version, "");
}

#[test]
fn cargo_toml_reads_package_and_dependencies() {
    let toml = "[package]\nname = \"demo\"\nversion = \"0.3.1\"\nedition = \"2021\"\n\n[dependencies]\nserde = \"1\"\ntokio = { version = \"1\" }\n";
    let info = PackageInfo::parse_cargo_toml(toml);
    assert_eq!(info.name, "demo");
    assert_eq!(info.version, "0.3.1");
    assert_eq!(info.depend, strings(&["serde", "tokio"]));
}

#[test]
fn cargo_toml_ignores_other_tables() {
    let toml = "[workspace]\nname = \"ws\"\n[package]\nname = \"real\"\n[dev-dependencies]\nproptest = \"1\"\n[[bin]]\nname = \"other\"\n";
    let info = PackageInfo::parse_cargo_toml(toml);
    assert_eq!(info.name, "real");
    assert_eq!(info.version, "");
    assert!(info.depend.is_empty());
}

#[test]
fn cmake_reads_project_line() {
    let info = PackageInfo::parse_cmake("cmake_minimum_required(VERSION 3.10)\nProject(\"hello\" VERSION 2.0 LANGUAGES C)\n");
    assert_eq!(info.name, "hello");
    assert_eq!(info.version, "2.0");
    assert!(info.depend.is_empty());
}

#[test]
fn cmake_defaults_version() {
    let info = PackageInfo::parse_cmake("project(app)\n");
    assert_eq!(info.name, "app");
    assert_eq!(info.version, "0.1.0");
    let info = PackageInfo::parse_cmake("project(app VERSION)\n");
    assert_eq!(info.version, "0.1.0");
    let none = PackageInfo::parse_cmake("add_executable(app main.c)\n");
    assert_eq!(none.name, "");
    assert_eq!(none.version, "0.1.0");
}

#[test]
fn cmake_version_keyword_in_any_case() {
    let info = PackageInfo::parse_cmake("  pRoJeCt( x version \"1.5\" )\n");
    assert_eq!(info.name, "x");
    assert_eq!(info.version, "1.5");
    // the long s and dotless i uppercase to S and I
    let info = PackageInfo::parse_cmake("project(y VER\u{17F}\u{131}ON 3)\n");
    assert_eq!(info.version, "3");
    assert_eq!("VER\u{17F}\u{131}ON".to_uppercase(), "VERSION");
}

#[test]
fn meson_reads_project_line() {
    let info = PackageInfo::parse_meson("project('tool', 'c', version: '0.9.1')\n");
    assert_eq!(info.name, "tool");
    assert_eq!(info.version, "0.9.1");
}

#[test]
fn meson_defaults_version_and_needs_project_prefix() {
    let info = PackageInfo::parse_meson("  project('tool', 'c')\nexecutable('x', 'x.c')\n");
    assert_eq!(info.name, "tool");
    assert_eq!(info.version, "0.1.0");
    let info = PackageInfo::parse_meson("PROJECT('tool')\n");
    assert_eq!(info.name, "");
}

#[test]
fn pls_toml_reads_dependency_list() {
    let info = PackageInfo::parse_pls_toml("name = \"app\"\ndeps = [\"a\", 'b', ,c]\n");
    assert_eq!(info.name, "app");
    assert_eq!(info.version, "0.1.0");
    assert_eq!(info.depend, strings(&["a", "b", "c"]));
}

#[test]
fn pls_toml_single_dependencies_and_quotes() {
    let info = PackageInfo::parse_pls_toml("name='app'\nversion = \"2.1\"\ndepend = libx\ndepend = [ \"liby\" ]\nbinary = target/app\n");
    assert_eq!(info.name, "app");
    assert_eq!(info.version, "2.1");
    assert_eq!(info.depend, strings(&["libx", "liby"]));
}

#[test]
fn cargo_toml_unrelated_table_adds_nothing() {
    let s = "[package]\nname = \"demo\"\nversion = \"1.0\"\n[dependencies]\nserde = \"1\"";
    let longer = format!("{}\n{}\n{}", s, "[profile.release]", "name = \"other\"\nversion = \"9\"\nlto = true = x");
    let a = PackageInfo::parse_cargo_toml(s);
    let b = PackageInfo::parse_cargo_toml(&longer);
    assert_eq!(a.name, b.name);
    assert_eq!(a.version, b.version);
    assert_eq!(a.depend, b.depend);
    assert_eq!(b.depend, strings(&["serde"]));
}
