//! Turning a project into a package: recognizing the kind of project from its build
//! files, planning the build, and finding the program to package.
use vstd::prelude::*;
use crate::package_info::{
    PackageInfo, PackageInfoView, info_text, lemma_info_round_trip, lemma_parsed_fields_one_line,
    one_line_fields, spec_parse_info, pls_value, pls_value_range, spec_parse_cargo_toml,
    spec_parse_cmake, spec_parse_meson, spec_parse_pls_toml,
};
use crate::text::{
    Pat, chars_of, concat, fold_pieces, lemma_fold_pieces_cons, lemma_split_step, owned,
    raw_lines, skip_lead, slice_string, split_once_char, strings_view, strip_end, strip_range, trim,
    word_eq,
};

verus! {

/// The kind of a project, known by its build file.
#[derive(Clone, Copy, Debug, PartialEq, Eq, Structural)]
pub enum ProjectType {
    /// `Cargo.toml`
    Rust,
    /// `CMakeLists.txt`
    CMake,
    /// `meson.build`
    Meson,
    /// `pls.toml`
    PlsToml,
}

pub open spec fn opt_chars(o: Option<&str>) -> Option<Seq<char>> {
    match o {
        Some(s) => Some(s@),
        None => None,
    }
}

/// The kind and description of a project given the contents of its build files
/// (`None` for a file that is missing or unreadable): the first of `Cargo.toml`,
/// `CMakeLists.txt`, `meson.build` and `pls.toml` that names a package decides.
pub open spec fn spec_detect_project(
    cargo: Option<Seq<char>>,
    cmake: Option<Seq<char>>,
    meson: Option<Seq<char>>,
    pls: Option<Seq<char>>,
) -> Option<(ProjectType, PackageInfoView)> {
    if cargo is Some && spec_parse_cargo_toml(cargo->0).name.len() > 0 {
        Some((ProjectType::Rust, spec_parse_cargo_toml(cargo->0)))
    } else if cmake is Some && spec_parse_cmake(cmake->0).name.len() > 0 {
        Some((ProjectType::CMake, spec_parse_cmake(cmake->0)))
    } else if meson is Some && spec_parse_meson(meson->0).name.len() > 0 {
        Some((ProjectType::Meson, spec_parse_meson(meson->0)))
    } else if pls is Some && spec_parse_pls_toml(pls->0).name.len() > 0 {
        Some((ProjectType::PlsToml, spec_parse_pls_toml(pls->0)))
    } else {
        None
    }
}

/// Recognizes a project from the contents of its build files.
pub fn detect_project(
    cargo: Option<&str>,
    cmake: Option<&str>,
    meson: Option<&str>,
    pls: Option<&str>,
) -> (r: Option<(ProjectType, PackageInfo)>)
    ensures
        match r {
            Some((t, info)) => spec_detect_project(
                opt_chars(cargo),
                opt_chars(cmake),
                opt_chars(meson),
                opt_chars(pls),
            ) == Some((t, info@)),
            None => spec_detect_project(
                opt_chars(cargo),
                opt_chars(cmake),
                opt_chars(meson),
                opt_chars(pls),
            ) is None,
        },
{
    if let Some(content) = cargo {
        let pkg = PackageInfo::parse_cargo_toml(content);
        if !pkg.name.as_str().is_empty() {
            return Some((ProjectType::Rust, pkg));
        }
    }
    if let Some(content) = cmake {
        let pkg = PackageInfo::parse_cmake(content);
        if !pkg.name.as_str().is_empty() {
            return Some((ProjectType::CMake, pkg));
        }
    }
    if let Some(content) = meson {
        let pkg = PackageInfo::parse_meson(content);
        if !pkg.name.as_str().is_empty() {
            return Some((ProjectType::Meson, pkg));
        }
    }
    if let Some(content) = pls {
        let pkg = PackageInfo::parse_pls_toml(content);
        if !pkg.name.as_str().is_empty() {
            return Some((ProjectType::PlsToml, pkg));
        }
    }
    None
}

// ---------------------------------------------------------------------------
// The `binary` field of a pls.toml

/// One line of a `pls.toml`, untrimmed, split at its first `=`: a line whose trimmed
/// key is `binary` names the program, as a [`pls_value`].
pub open spec fn binary_line(acc: Seq<char>, seg: Seq<char>) -> Seq<char> {
    match split_once_char(seg, '=') {
        Some((k, v)) => if trim(k) == "binary"@ {
            pls_value(v)
        } else {
            acc
        },
        None => acc,
    }
}

pub open spec fn binary_line_fn() -> spec_fn(Seq<char>, Seq<char>) -> Seq<char> {
    |acc: Seq<char>, seg: Seq<char>| binary_line(acc, seg)
}

/// The program a `pls.toml` names (the last `binary` line wins), empty if none.
pub open spec fn spec_pls_binary(content: Seq<char>) -> Seq<char> {
    fold_pieces(Seq::empty(), raw_lines(content), binary_line_fn())
}

/// The program a `pls.toml` names, empty if none.
pub fn pls_binary(content: &str) -> (b: String)
    ensures
        b@ == spec_pls_binary(content@),
{
    let v = chars_of(content);
    let n = v.len();
    let mut bin: (usize, usize) = (0, 0);
    let mut pos: usize = 0;
    let mut more = true;
    proof {
        assert(v@.subrange(0, n as int) =~= v@);
        assert(v@.subrange(0, 0) =~= Seq::<char>::empty());
    }
    while more
        invariant
            v@ == content@,
            n == v@.len(),
            pos <= n,
            bin.0 <= bin.1 <= n,
            more ==> fold_pieces(
                v@.subrange(bin.0 as int, bin.1 as int),
                raw_lines(v@.subrange(pos as int, n as int)),
                binary_line_fn(),
            ) == spec_pls_binary(content@),
            !more ==> v@.subrange(bin.0 as int, bin.1 as int) == spec_pls_binary(content@),
        decreases
            if more {
                n - pos + 1
            } else {
                0
            },
    {
        let a = skip_lead(&v, pos, n, Pat::NotCh('\n'));
        proof {
            lemma_split_step(v@, pos as int, a as int, n as int, '\n');
        }
        let ghost before = v@.subrange(bin.0 as int, bin.1 as int);
        let ghost seg = v@.subrange(pos as int, a as int);
        let e = skip_lead(&v, pos, a, Pat::NotCh('='));
        if e < a {
            proof {
                assert(seg.take(e - pos) =~= v@.subrange(pos as int, e as int));
                assert(seg.subrange(e - pos + 1, seg.len() as int) =~= v@.subrange(
                    e + 1,
                    a as int,
                ));
            }
            let (ka, kb) = strip_range(&v, pos, e, Pat::Ws);
            if word_eq(&v, ka, kb, "binary") {
                bin = pls_value_range(&v, e + 1, a);
            }
        }
        proof {
            assert(v@.subrange(bin.0 as int, bin.1 as int) == binary_line(before, seg));
            if a < n {
                lemma_fold_pieces_cons(
                    before,
                    seg,
                    raw_lines(v@.subrange(a + 1, n as int)),
                    binary_line_fn(),
                );
            } else {
                lemma_fold_pieces_cons(before, seg, Seq::empty(), binary_line_fn());
                assert(seq![seg] + Seq::<Seq<char>>::empty() =~= seq![seg]);
            }
        }
        if a < n {
            pos = a + 1;
        } else {
            more = false;
        }
    }
    slice_string(content, bin.0, bin.1)
}

/// The program of a `pls.toml` project: `<project>/<binary>`; a `pls.toml` without a
/// `binary` line is refused (`None`).
pub fn pls_binary_path(project_path: &str, pls_content: &str) -> (r: Option<String>)
    ensures
        spec_pls_binary(pls_content@).len() == 0 ==> r is None,
        spec_pls_binary(pls_content@).len() > 0 ==> (r matches Some(p) && p@ == project_path@
            + "/"@ + spec_pls_binary(pls_content@)),
{
    let bin = pls_binary(pls_content);
    if bin.as_str().is_empty() {
        None
    } else {
        let mut p = owned(project_path);
        p.append("/");
        p.append(bin.as_str());
        Some(p)
    }
}

// ---------------------------------------------------------------------------
// Build plans

/// One command of a build.
pub struct BuildStep {
    pub program: String,
    pub args: Vec<String>,
    /// the directory to run in; `None` for the current one
    pub dir: Option<String>,
    /// what to report when the command runs but fails
    pub failure: String,
}

pub struct BuildStepView {
    pub program: Seq<char>,
    pub args: Seq<Seq<char>>,
    pub dir: Option<Seq<char>>,
    pub failure: Seq<char>,
}

pub open spec fn opt_string_view(o: Option<String>) -> Option<Seq<char>> {
    match o {
        Some(s) => Some(s@),
        None => None,
    }
}

impl View for BuildStep {
    type V = BuildStepView;

    open spec fn view(&self) -> BuildStepView {
        BuildStepView {
            program: self.program@,
            args: strings_view(self.args@),
            dir: opt_string_view(self.dir),
            failure: self.failure@,
        }
    }
}

/// How to get the program of a project built: where it will be, what to say, a
/// directory to create first, and the commands to run, in order. The commands are
/// only run when the program is not there yet.
pub struct BuildPlan {
    pub binary_path: String,
    pub announce: String,
    pub make_dir: Option<String>,
    pub steps: Vec<BuildStep>,
}

pub struct BuildPlanView {
    pub binary_path: Seq<char>,
    pub announce: Seq<char>,
    pub make_dir: Option<Seq<char>>,
    pub steps: Seq<BuildStepView>,
}

impl View for BuildPlan {
    type V = BuildPlanView;

    open spec fn view(&self) -> BuildPlanView {
        BuildPlanView {
            binary_path: self.binary_path@,
            announce: self.announce@,
            make_dir: opt_string_view(self.make_dir),
            steps: self.steps@.map_values(|s: BuildStep| s@),
        }
    }
}

pub open spec fn step(
    program: Seq<char>,
    args: Seq<Seq<char>>,
    dir: Option<Seq<char>>,
    failure: Seq<char>,
) -> BuildStepView {
    BuildStepView { program, args, dir, failure }
}

/// The build of a project whose build system builds it: Cargo builds into
/// `target/debug` or `target/release`; CMake configures and makes in `build/`;
/// Meson sets up and ninja builds in `builddir/`. A draft is a debug build.
/// `pls.toml` projects are not built.
pub open spec fn spec_build_plan(t: ProjectType, path: Seq<char>, name: Seq<char>, draft: bool) -> Option<BuildPlanView> {
    match t {
        ProjectType::Rust => {
            let mode = if draft {
                "debug"@
            } else {
                "release"@
            };
            Some(
                BuildPlanView {
                    binary_path: path + "/target/"@ + mode + "/"@ + name,
                    announce: "building "@ + mode + " "@ + name + "..."@,
                    make_dir: None,
                    steps: seq![
                        step(
                            "cargo"@,
                            if draft {
                                seq!["build"@]
                            } else {
                                seq!["build"@, "--release"@]
                            },
                            Some(path),
                            "build failed, fix ur code first"@,
                        ),
                    ],
                },
            )
        },
        ProjectType::CMake => {
            let dir = path + "/build"@;
            let mode = if draft {
                "Debug"@
            } else {
                "Release"@
            };
            Some(
                BuildPlanView {
                    binary_path: dir + "/"@ + name,
                    announce: "building "@ + name + " with cmake..."@,
                    make_dir: Some(dir),
                    steps: seq![
                        step(
                            "cmake"@,
                            seq![".."@, "-DCMAKE_BUILD_TYPE="@ + mode],
                            Some(dir),
                            "cmake configure failed"@,
                        ),
                        step("make"@, seq!["-j4"@], Some(dir), "build failed"@),
                    ],
                },
            )
        },
        ProjectType::Meson => {
            let dir = path + "/builddir"@;
            let mode = if draft {
                "debug"@
            } else {
                "release"@
            };
            Some(
                BuildPlanView {
                    binary_path: dir + "/"@ + name,
                    announce: "building "@ + name + " with meson..."@,
                    make_dir: None,
                    steps: seq![
                        step(
                            "meson"@,
                            seq!["setup"@, dir, "--buildtype"@, mode],
                            Some(path),
                            "meson setup failed"@,
                        ),
                        step("ninja"@, seq!["-C"@, dir], None, "build failed"@),
                    ],
                },
            )
        },
        ProjectType::PlsToml => None,
    }
}


/// A draft is a debug build and anything else a release build, whatever the project
/// and package: Cargo builds with `--release` into `target/release` unless drafting,
/// when it builds plainly into `target/debug`; CMake configures with
/// `CMAKE_BUILD_TYPE=Release` unless drafting, when `Debug`; Meson sets the build
/// type `release` unless drafting, when `debug`.
pub proof fn lemma_build_type_follows_draft(path: Seq<char>, name: Seq<char>)
    ensures
        ({
            let r = spec_build_plan(ProjectType::Rust, path, name, false)->0;
            let d = spec_build_plan(ProjectType::Rust, path, name, true)->0;
            &&& r.steps.len() == 1 && r.steps[0].args == seq!["build"@, "--release"@]
            &&& r.binary_path == path + "/target/release/"@ + name
            &&& d.steps.len() == 1 && d.steps[0].args == seq!["build"@]
            &&& d.binary_path == path + "/target/debug/"@ + name
        }),
        ({
            let r = spec_build_plan(ProjectType::CMake, path, name, false)->0;
            let d = spec_build_plan(ProjectType::CMake, path, name, true)->0;
            &&& r.steps.len() == 2 && r.steps[0].args == seq![".."@, "-DCMAKE_BUILD_TYPE=Release"@]
            &&& d.steps.len() == 2 && d.steps[0].args == seq![".."@, "-DCMAKE_BUILD_TYPE=Debug"@]
            &&& r.binary_path == d.binary_path
        }),
        ({
            let r = spec_build_plan(ProjectType::Meson, path, name, false)->0;
            let d = spec_build_plan(ProjectType::Meson, path, name, true)->0;
            &&& r.steps.len() == 2 && r.steps[0].args == seq!["setup"@, path + "/builddir"@, "--buildtype"@, "release"@]
            &&& d.steps.len() == 2 && d.steps[0].args == seq!["setup"@, path + "/builddir"@, "--buildtype"@, "debug"@]
            &&& r.binary_path == d.binary_path
        }),
        spec_build_plan(ProjectType::Rust, path, name, false) is Some,
        spec_build_plan(ProjectType::CMake, path, name, false) is Some,
        spec_build_plan(ProjectType::Meson, path, name, false) is Some,
{
    reveal_strlit("/target/");
    reveal_strlit("/target/release/");
    reveal_strlit("/target/debug/");
    reveal_strlit("release");
    reveal_strlit("debug");
    reveal_strlit("/");
    reveal_strlit("-DCMAKE_BUILD_TYPE=");
    reveal_strlit("-DCMAKE_BUILD_TYPE=Release");
    reveal_strlit("-DCMAKE_BUILD_TYPE=Debug");
    reveal_strlit("Release");
    reveal_strlit("Debug");
    assert(path + "/target/"@ + "release"@ + "/"@ + name =~= path + "/target/release/"@ + name);
    assert(path + "/target/"@ + "debug"@ + "/"@ + name =~= path + "/target/debug/"@ + name);
    assert("-DCMAKE_BUILD_TYPE="@ + "Release"@ =~= "-DCMAKE_BUILD_TYPE=Release"@);
    assert("-DCMAKE_BUILD_TYPE="@ + "Debug"@ =~= "-DCMAKE_BUILD_TYPE=Debug"@);
}

fn new_step(program: &str, args: Vec<String>, dir: Option<String>, failure: &str) -> (s: BuildStep)
    ensures
        s@ == step(program@, strings_view(args@), opt_string_view(dir), failure@),
{
    BuildStep { program: owned(program), args, dir, failure: owned(failure) }
}

fn strings1(a: &str) -> (v: Vec<String>)
    ensures
        strings_view(v@) == seq![a@],
{
    let mut v: Vec<String> = Vec::new();
    v.push(owned(a));
    assert(strings_view(v@) =~= seq![a@]);
    v
}

fn strings2(a: &str, b: &str) -> (v: Vec<String>)
    ensures
        strings_view(v@) == seq![a@, b@],
{
    let mut v: Vec<String> = Vec::new();
    v.push(owned(a));
    v.push(owned(b));
    assert(strings_view(v@) =~= seq![a@, b@]);
    v
}

fn strings4(a: &str, b: &str, c: &str, d: &str) -> (v: Vec<String>)
    ensures
        strings_view(v@) == seq![a@, b@, c@, d@],
{
    let mut v: Vec<String> = Vec::new();
    v.push(owned(a));
    v.push(owned(b));
    v.push(owned(c));
    v.push(owned(d));
    assert(strings_view(v@) =~= seq![a@, b@, c@, d@]);
    v
}

/// Plans the build of a project of this kind at `project_path`, for the package
/// `name`; `None` for `pls.toml` projects, which name their program instead.
pub fn build_plan(project_type: ProjectType, project_path: &str, name: &str, is_draft: bool) -> (r: Option<BuildPlan>)
    ensures
        match r {
            Some(p) => spec_build_plan(project_type, project_path@, name@, is_draft) == Some(p@),
            None => spec_build_plan(project_type, project_path@, name@, is_draft) is None,
        },
{
    match project_type {
        ProjectType::Rust => {
            let mode = if is_draft {
                "debug"
            } else {
                "release"
            };
            let mut binary_path = owned(project_path);
            binary_path.append("/target/");
            binary_path.append(mode);
            binary_path.append("/");
            binary_path.append(name);
            let mut announce = owned("building ");
            announce.append(mode);
            announce.append(" ");
            announce.append(name);
            announce.append("...");
            let args = if is_draft {
                strings1("build")
            } else {
                strings2("build", "--release")
            };
            let s = new_step("cargo", args, Some(owned(project_path)), "build failed, fix ur code first");
            let mut steps: Vec<BuildStep> = Vec::new();
            steps.push(s);
            let plan = BuildPlan { binary_path, announce, make_dir: None, steps };
            assert(plan@.steps =~= spec_build_plan(project_type, project_path@, name@, is_draft)->0.steps);
            Some(plan)
        },
        ProjectType::CMake => {
            let dir = concat(project_path, "/build");
            let mode = if is_draft {
                "Debug"
            } else {
                "Release"
            };
            let mut binary_path = concat(dir.as_str(), "/");
            binary_path.append(name);
            let mut announce = owned("building ");
            announce.append(name);
            announce.append(" with cmake...");
            let flag = concat("-DCMAKE_BUILD_TYPE=", mode);
            let configure = new_step("cmake", strings2("..", flag.as_str()), Some(dir.clone()), "cmake configure failed");
            let make = new_step("make", strings1("-j4"), Some(dir.clone()), "build failed");
            let mut steps: Vec<BuildStep> = Vec::new();
            steps.push(configure);
            steps.push(make);
            let plan = BuildPlan { binary_path, announce, make_dir: Some(dir), steps };
            assert(plan@.steps =~= spec_build_plan(project_type, project_path@, name@, is_draft)->0.steps);
            Some(plan)
        },
        ProjectType::Meson => {
            let dir = concat(project_path, "/builddir");
            let mode = if is_draft {
                "debug"
            } else {
                "release"
            };
            let mut binary_path = concat(dir.as_str(), "/");
            binary_path.append(name);
            let mut announce = owned("building ");
            announce.append(name);
            announce.append(" with meson...");
            let setup = new_step(
                "meson",
                strings4("setup", dir.as_str(), "--buildtype", mode),
                Some(owned(project_path)),
                "meson setup failed",
            );
            let ninja = new_step("ninja", strings2("-C", dir.as_str()), None, "build failed");
            let mut steps: Vec<BuildStep> = Vec::new();
            steps.push(setup);
            steps.push(ninja);
            let plan = BuildPlan { binary_path, announce, make_dir: None, steps };
            assert(plan@.steps =~= spec_build_plan(project_type, project_path@, name@, is_draft)->0.steps);
            Some(plan)
        },
        ProjectType::PlsToml => None,
    }
}


/// The package that `add` makes of a project installs under the name and version
/// that the project's build file gives, less trailing whitespace: reading back the
/// `info` file written for the detected description gives them.
pub proof fn lemma_added_package_reads_back(
    cargo: Option<Seq<char>>,
    cmake: Option<Seq<char>>,
    meson: Option<Seq<char>>,
    pls: Option<Seq<char>>,
)
    requires
        spec_detect_project(cargo, cmake, meson, pls) is Some,
    ensures
        ({
            let detected = spec_detect_project(cargo, cmake, meson, pls)->0;
            let p = detected.1;
            spec_parse_info(info_text(p.name, p.version)) == (PackageInfoView {
                name: strip_end(p.name, Pat::Ws),
                version: strip_end(p.version, Pat::Ws),
                depend: Seq::empty(),
            })
        }),
{
    if let Some(c) = cargo {
        lemma_parsed_fields_one_line(c);
    }
    if let Some(c) = cmake {
        lemma_parsed_fields_one_line(c);
    }
    if let Some(c) = meson {
        lemma_parsed_fields_one_line(c);
    }
    if let Some(c) = pls {
        lemma_parsed_fields_one_line(c);
    }
    let detected = spec_detect_project(cargo, cmake, meson, pls)->0;
    let p = detected.1;
    assert(one_line_fields(p));
    lemma_info_round_trip(p.name, p.version);
}

// ---------------------------------------------------------------------------
// Carrying out a build plan

/// What has just happened while carrying out a build plan.
pub enum BuildEvent {
    /// the plan is about to be carried out; tells whether its program is already there
    Started { binary_exists: bool },
    /// the announcement has been made
    Announced,
    /// the directory to create first has been created
    DirMade,
    /// the command at `index` of the plan ran and exited
    StepExited { index: usize, success: bool },
}

/// What to do next while carrying out a build plan.
pub enum BuildAction {
    /// say what is being built (the plan's `announce`)
    Announce,
    /// create this directory
    MakeDir(String),
    /// run the command at this index of the plan
    Run(usize),
    /// stop: the build failed with this message
    Fail(String),
    /// the build is over; the program should now be there
    Done,
}

/// The first command at or after `k`, or the end of the build.
pub open spec fn run_from(steps: Seq<BuildStepView>, k: int) -> BuildActionView {
    if 0 <= k < steps.len() {
        BuildActionView::Run(k)
    } else {
        BuildActionView::Done
    }
}

pub enum BuildActionView {
    Announce,
    MakeDir(Seq<char>),
    Run(int),
    Fail(Seq<char>),
    Done,
}

impl View for BuildAction {
    type V = BuildActionView;

    open spec fn view(&self) -> BuildActionView {
        match self {
            BuildAction::Announce => BuildActionView::Announce,
            BuildAction::MakeDir(d) => BuildActionView::MakeDir(d@),
            BuildAction::Run(i) => BuildActionView::Run(*i as int),
            BuildAction::Fail(m) => BuildActionView::Fail(m@),
            BuildAction::Done => BuildActionView::Done,
        }
    }
}

/// The next action of a build: nothing is built when the program is already there;
/// otherwise announce, create the plan's directory if it has one, then run the
/// commands in order, stopping with the command's failure message at the first one
/// that fails.
pub open spec fn spec_build_next(plan: BuildPlanView, event: BuildEvent) -> BuildActionView {
    match event {
        BuildEvent::Started { binary_exists } => if binary_exists {
            BuildActionView::Done
        } else {
            BuildActionView::Announce
        },
        BuildEvent::Announced => match plan.make_dir {
            Some(d) => BuildActionView::MakeDir(d),
            None => run_from(plan.steps, 0),
        },
        BuildEvent::DirMade => run_from(plan.steps, 0),
        BuildEvent::StepExited { index, success } => if index >= plan.steps.len() {
            BuildActionView::Done
        } else if success {
            run_from(plan.steps, index + 1)
        } else {
            BuildActionView::Fail(plan.steps[index as int].failure)
        },
    }
}

/// Decides the next action of a build from what has just happened.
pub fn build_next(plan: &BuildPlan, event: BuildEvent) -> (a: BuildAction)
    ensures
        a@ == spec_build_next(plan@, event),
{
    let n = plan.steps.len();
    match event {
        BuildEvent::Started { binary_exists } => if binary_exists {
            BuildAction::Done
        } else {
            BuildAction::Announce
        },
        BuildEvent::Announced => match &plan.make_dir {
            Some(d) => BuildAction::MakeDir(d.clone()),
            None => if n > 0 {
                BuildAction::Run(0)
            } else {
                BuildAction::Done
            },
        },
        BuildEvent::DirMade => if n > 0 {
            BuildAction::Run(0)
        } else {
            BuildAction::Done
        },
        BuildEvent::StepExited { index, success } => if index >= n {
            BuildAction::Done
        } else if success {
            if index + 1 < n {
                BuildAction::Run(index + 1)
            } else {
                BuildAction::Done
            }
        } else {
            BuildAction::Fail(plan.steps[index].failure.clone())
        },
    }
}

/// Where `add` stages a package before packing it.
pub const STAGING_DIR: &'static str = "/tmp/pls-build";

/// Where `add` stages the program of a package.
pub fn staged_binary_path(name: &str) -> (p: String)
    ensures
        p@ == STAGING_DIR@ + "/bin/"@ + name@,
{
    let mut p = owned(STAGING_DIR);
    p.append("/bin/");
    p.append(name);
    p
}

} // verus!
