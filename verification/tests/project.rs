use pls::package_info::{info_file_content, PackageInfo};
use pls::project::{build_next, BuildAction, BuildEvent, build_plan, detect_project, pls_binary, pls_binary_path, staged_binary_path, ProjectType};

fn strings(xs: &[&str]) -> Vec<String> {
    xs.iter().map(|s| s.to_string()).collect()
}

#[test]
fn detect_prefers_cargo() {
    let r = detect_project(Some("[package]\nname = \"a\"\n"), Some("project(b)\n"), None, None);
    let (t, info) = r.unwrap();
    assert_eq!(t, ProjectType::Rust);
    assert_eq!(info.name, "a");
}

#[test]
fn detect_skips_files_that_name_nothing() {
    let r = detect_project(Some("[workspace]\n"), Some("# nothing\n"), Some("project('m')\n"), Some("name = p\n"));
    let (t, info) = r.unwrap();
    assert_eq!(t, ProjectType::Meson);
    assert_eq!(info.name, "m");
    let r = detect_project(None, None, None, Some("name = p\n"));
    assert_eq!(r.unwrap().0, ProjectType::PlsToml);
    assert!(detect_project(None, None, None, None).is_none());
    assert!(detect_project(Some(""), Some(""), Some(""), Some("")).is_none());
}

#[test]
fn pls_binary_field_last_wins() {
    assert_eq!(pls_binary("name = x\n  binary = \"build/x\"\r\nbinary='out/y'\n"), "out/y");
    assert_eq!(pls_binary("name = x\n"), "");
    assert_eq!(pls_binary_path("/proj", "binary = bin/tool\n"), Some("/proj/bin/tool".to_string()));
    assert_eq!(pls_binary_path("/proj", "name = tool\n"), None);
}

#[test]
fn rust_build_plan() {
    let plan = build_plan(ProjectType::Rust, "/p", "app", false).unwrap();
    assert_eq!(plan.binary_path, "/p/target/release/app");
    assert_eq!(plan.announce, "building release app...");
    assert!(plan.make_dir.is_none());
    assert_eq!(plan.steps.len(), 1);
    assert_eq!(plan.steps[0].program, "cargo");
    assert_eq!(plan.steps[0].args, strings(&["build", "--release"]));
    assert_eq!(plan.steps[0].dir, Some("/p".to_string()));
    assert_eq!(plan.steps[0].failure, "build failed, fix ur code first");
    let draft = build_plan(ProjectType::Rust, "/p", "app", true).unwrap();
    assert_eq!(draft.binary_path, "/p/target/debug/app");
    assert_eq!(draft.steps[0].args, strings(&["build"]));
}

#[test]
fn cmake_build_plan() {
    let plan = build_plan(ProjectType::CMake, "/p", "app", true).unwrap();
    assert_eq!(plan.binary_path, "/p/build/app");
    assert_eq!(plan.announce, "building app with cmake...");
    assert_eq!(plan.make_dir, Some("/p/build".to_string()));
    assert_eq!(plan.steps[0].program, "cmake");
    assert_eq!(plan.steps[0].args, strings(&["..", "-DCMAKE_BUILD_TYPE=Debug"]));
    assert_eq!(plan.steps[0].dir, Some("/p/build".to_string()));
    assert_eq!(plan.steps[0].failure, "cmake configure failed");
    assert_eq!(plan.steps[1].program, "make");
    assert_eq!(plan.steps[1].args, strings(&["-j4"]));
    assert_eq!(plan.steps[1].failure, "build failed");
}

#[test]
fn meson_build_plan() {
    let plan = build_plan(ProjectType::Meson, "/p", "app", false).unwrap();
    assert_eq!(plan.binary_path, "/p/builddir/app");
    assert_eq!(plan.announce, "building app with meson...");
    assert_eq!(plan.steps[0].program, "meson");
    assert_eq!(plan.steps[0].args, strings(&["setup", "/p/builddir", "--buildtype", "release"]));
    assert_eq!(plan.steps[0].dir, Some("/p".to_string()));
    assert_eq!(plan.steps[0].failure, "meson setup failed");
    assert_eq!(plan.steps[1].program, "ninja");
    assert_eq!(plan.steps[1].args, strings(&["-C", "/p/builddir"]));
    assert_eq!(plan.steps[1].dir, None);
}

#[test]
fn pls_toml_projects_are_not_built() {
    assert!(build_plan(ProjectType::PlsToml, "/p", "app", false).is_none());
    assert_eq!(staged_binary_path("app"), "/tmp/pls-build/bin/app");
}

#[test]
fn added_package_reads_back_under_its_name() {
    let (_, pkg) = detect_project(Some("[package]\nname = \"tool \"\nversion = \"1.2\"\n"), None, None, None).unwrap();
    assert_eq!(pkg.name, "tool ");
    let back = PackageInfo::parse_info(&info_file_content(&pkg.name, &pkg.version));
    assert_eq!(back.name, "tool");
    assert_eq!(back.version, "1.2");
    assert!(back.depend.is_empty());
}

#[test]
fn build_skipped_when_program_exists() {
    let plan = build_plan(ProjectType::CMake, "/p", "app", false).unwrap();
    assert!(matches!(build_next(&plan, BuildEvent::Started { binary_exists: true }), BuildAction::Done));
}

#[test]
fn build_runs_steps_in_order_and_stops_at_failure() {
    let plan = build_plan(ProjectType::CMake, "/p", "app", false).unwrap();
    assert!(matches!(build_next(&plan, BuildEvent::Started { binary_exists: false }), BuildAction::Announce));
    match build_next(&plan, BuildEvent::Announced) {
        BuildAction::MakeDir(d) => assert_eq!(d, "/p/build"),
        _ => panic!("expected the build directory"),
    }
    assert!(matches!(build_next(&plan, BuildEvent::DirMade), BuildAction::Run(0)));
    assert!(matches!(build_next(&plan, BuildEvent::StepExited { index: 0, success: true }), BuildAction::Run(1)));
    assert!(matches!(build_next(&plan, BuildEvent::StepExited { index: 1, success: true }), BuildAction::Done));
    match build_next(&plan, BuildEvent::StepExited { index: 0, success: false }) {
        BuildAction::Fail(m) => assert_eq!(m, "cmake configure failed"),
        _ => panic!("expected a failure"),
    }
    let rust = build_plan(ProjectType::Rust, "/p", "app", false).unwrap();
    assert!(matches!(build_next(&rust, BuildEvent::Announced), BuildAction::Run(0)));
    match build_next(&rust, BuildEvent::StepExited { index: 0, success: false }) {
        BuildAction::Fail(m) => assert_eq!(m, "build failed, fix ur code first"),
        _ => panic!("expected a failure"),
    }
}
