//! Package descriptions and the parsers that read them out of the
//! `info` file of a package and out of the build files of a project.
use vstd::prelude::*;
use crate::text::{
    Pat, is_ws, lemma_find_skip, lemma_split_char_first, lemma_trail_bound, lemma_trail_concat, lead,
    owned, lemma_fold_pieces_keeps, lemma_fold_pieces_keeps_on, lacks, lemma_lacks_strip, lemma_lacks_subrange,
    lemma_lacks_split_once_str, lemma_lacks_split_once_char, lemma_split_char_lacks, lemma_words_lacks,
    lemma_find_from_bounds, lemma_split_char_concat, lemma_fold_pieces_append, lemma_fold_pieces_fixed, starts_with, split_once_char, find_str, range_eq, strip_end, trail, find_from, split_char, skip_trail, strip_start, word_ranges, words, chars_of, find_in, fold_pieces, lemma_fold_pieces_cons, lemma_ranges_view_push,
    lemma_split_step, range_strings, ranges_view, raw_lines, skip_lead, slice_string,
    split_once_str, strings_view, strip, strip_range, trim, word_eq,
};

verus! {

/// Name, version and dependencies of a package.
pub struct PackageInfo {
    pub name: String,
    pub version: String,
    pub depend: Vec<String>,
}

/// The abstract content of a [`PackageInfo`].
pub struct PackageInfoView {
    pub name: Seq<char>,
    pub version: Seq<char>,
    pub depend: Seq<Seq<char>>,
}

impl View for PackageInfo {
    type V = PackageInfoView;

    open spec fn view(&self) -> PackageInfoView {
        PackageInfoView { name: self.name@, version: self.version@, depend: strings_view(self.depend@) }
    }
}

/// Nothing read yet.
pub open spec fn blank_info() -> PackageInfoView {
    PackageInfoView { name: Seq::empty(), version: Seq::empty(), depend: Seq::empty() }
}

/// The view of a description held as ranges of the character buffer `v`.
pub open spec fn info_in(
    v: Seq<char>,
    name: (usize, usize),
    version: (usize, usize),
    deps: Seq<(usize, usize)>,
) -> PackageInfoView {
    PackageInfoView {
        name: v.subrange(name.0 as int, name.1 as int),
        version: v.subrange(version.0 as int, version.1 as int),
        depend: ranges_view(v, deps),
    }
}

pub open spec fn ranges_within(rs: Seq<(usize, usize)>, n: nat) -> bool {
    forall|i: int| 0 <= i < rs.len() ==> rs[i].0 <= #[trigger] rs[i].1 <= n
}

// ---------------------------------------------------------------------------
// The `info` file: lines `key = value`.

/// One line of an `info` file: after trimming, a line `name = v`, `version = v` or
/// `depend = v` (split at the first `" = "`) sets the name, sets the version or adds a
/// dependency; every other line is ignored.
pub open spec fn info_line(st: PackageInfoView, seg: Seq<char>) -> PackageInfoView {
    match split_once_str(trim(seg), " = "@) {
        Some((key, value)) => if key == "name"@ {
            PackageInfoView { name: value, ..st }
        } else if key == "version"@ {
            PackageInfoView { version: value, ..st }
        } else if key == "depend"@ {
            PackageInfoView { depend: st.depend.push(value), ..st }
        } else {
            st
        },
        None => st,
    }
}

pub open spec fn info_line_fn() -> spec_fn(PackageInfoView, Seq<char>) -> PackageInfoView {
    |st: PackageInfoView, seg: Seq<char>| info_line(st, seg)
}

/// What an `info` file says, its lines read first to last.
pub open spec fn spec_parse_info(content: Seq<char>) -> PackageInfoView {
    fold_pieces(blank_info(), raw_lines(content), info_line_fn())
}

impl PackageInfo {
    /// Reads an `info` file.
    pub fn parse_info(content: &str) -> (info: PackageInfo)
        ensures
            info@ == spec_parse_info(content@),
    {
        let v = chars_of(content);
        let n = v.len();
        let sep = chars_of(" = ");
        let mut name_r: (usize, usize) = (0, 0);
        let mut ver_r: (usize, usize) = (0, 0);
        let mut deps: Vec<(usize, usize)> = Vec::new();
        let mut pos: usize = 0;
        let mut more = true;
        proof {
            assert(v@.subrange(0, n as int) =~= v@);
            assert(v@.subrange(0, 0) =~= Seq::<char>::empty());
            assert(ranges_view(v@, deps@) =~= Seq::<Seq<char>>::empty());
            assert(info_in(v@, name_r, ver_r, deps@) == blank_info());
        }
        while more
            invariant
                v@ == content@,
                n == v@.len(),
                sep@ == " = "@,
                pos <= n,
                name_r.0 <= name_r.1 <= n,
                ver_r.0 <= ver_r.1 <= n,
                ranges_within(deps@, n as nat),
                more ==> fold_pieces(
                    info_in(v@, name_r, ver_r, deps@),
                    raw_lines(v@.subrange(pos as int, n as int)),
                    info_line_fn(),
                ) == spec_parse_info(content@),
                !more ==> info_in(v@, name_r, ver_r, deps@) == spec_parse_info(content@),
            decreases
                if more {
                    n - pos + 1
                } else {
                    0
                },
        {
            let a = skip_lead(&v, pos, n, Pat::NotCh('\n'));
            proof {
                lemma_split_step(v@, pos as int, a as int, n as int, '\n');
                assert(v@.subrange(0, n as int) =~= v@);
            }
            let ghost before = info_in(v@, name_r, ver_r, deps@);
            let ghost seg = v@.subrange(pos as int, a as int);
            let (la, lb) = strip_range(&v, pos, a, Pat::Ws);
            let ghost line = v@.subrange(la as int, lb as int);
            match find_in(&v, la, lb, &sep) {
                Some(k) => {
                    let vs = k + sep.len();
                    proof {
                        assert(line.take(k - la) =~= v@.subrange(la as int, k as int));
                        assert(line.skip(k - la + sep@.len()) =~= v@.subrange(
                            vs as int,
                            lb as int,
                        ));
                    }
                    if word_eq(&v, la, k, "name") {
                        name_r = (vs, lb);
                    } else if word_eq(&v, la, k, "version") {
                        ver_r = (vs, lb);
                    } else if word_eq(&v, la, k, "depend") {
                        proof {
                            lemma_ranges_view_push(v@, deps@, (vs, lb));
                        }
                        deps.push((vs, lb));
                    }
                },
                None => {},
            }
            proof {
                assert(info_in(v@, name_r, ver_r, deps@) == info_line(before, seg));
                if a < n {
                    lemma_fold_pieces_cons(
                        before,
                        seg,
                        raw_lines(v@.subrange(a + 1, n as int)),
                        info_line_fn(),
                    );
                } else {
                    lemma_fold_pieces_cons(before, seg, Seq::empty(), info_line_fn());
                    assert(seq![seg] + Seq::<Seq<char>>::empty() =~= seq![seg]);
                }
            }
            if a < n {
                pos = a + 1;
            } else {
                more = false;
            }
        }
        PackageInfo {
            name: slice_string(content, name_r.0, name_r.1),
            version: slice_string(content, ver_r.0, ver_r.1),
            depend: range_strings(content, &deps),
        }
    }
}



// ---------------------------------------------------------------------------
// Cargo.toml

/// What has been read of a `Cargo.toml` and the table the reader is in.
pub struct TomlState {
    pub info: PackageInfoView,
    pub section: Seq<char>,
}

/// One line of a `Cargo.toml`, trimmed: a line starting with `[` opens the table
/// named by the line without its surrounding brackets; in `[package]`, `name = v` and
/// `version = v` (split at the first `" = "`) set name and version, `v` without its
/// surrounding double quotes; in `[dependencies]`, every line with a `" = "` adds the
/// trimmed text before it as a dependency.
pub open spec fn cargo_line(st: TomlState, seg: Seq<char>) -> TomlState {
    let line = trim(seg);
    if line.len() > 0 && line[0] == '[' {
        TomlState { section: strip(line, Pat::Brackets), ..st }
    } else if st.section == "package"@ {
        match split_once_str(line, " = "@) {
            Some((key, value)) => if key == "name"@ {
                TomlState { info: PackageInfoView { name: strip(value, Pat::Ch('"')), ..st.info }, ..st }
            } else if key == "version"@ {
                TomlState {
                    info: PackageInfoView { version: strip(value, Pat::Ch('"')), ..st.info },
                    ..st
                }
            } else {
                st
            },
            None => st,
        }
    } else if st.section == "dependencies"@ {
        match split_once_str(line, " = "@) {
            Some((key, _)) => TomlState {
                info: PackageInfoView { depend: st.info.depend.push(trim(key)), ..st.info },
                ..st
            },
            None => st,
        }
    } else {
        st
    }
}

pub open spec fn cargo_line_fn() -> spec_fn(TomlState, Seq<char>) -> TomlState {
    |st: TomlState, seg: Seq<char>| cargo_line(st, seg)
}

/// What a `Cargo.toml` says of its package, its lines read first to last.
pub open spec fn spec_parse_cargo_toml(content: Seq<char>) -> PackageInfoView {
    fold_pieces(TomlState { info: blank_info(), section: Seq::empty() }, raw_lines(content), cargo_line_fn()).info
}

impl PackageInfo {
    /// Reads name, version and dependencies out of a `Cargo.toml`.
    pub fn parse_cargo_toml(content: &str) -> (info: PackageInfo)
        ensures
            info@ == spec_parse_cargo_toml(content@),
    {
        let v = chars_of(content);
        let n = v.len();
        let sep = chars_of(" = ");
        let mut name_r: (usize, usize) = (0, 0);
        let mut ver_r: (usize, usize) = (0, 0);
        let mut sec_r: (usize, usize) = (0, 0);
        let mut deps: Vec<(usize, usize)> = Vec::new();
        let mut pos: usize = 0;
        let mut more = true;
        let ghost init = TomlState { info: blank_info(), section: Seq::empty() };
        proof {
            assert(v@.subrange(0, n as int) =~= v@);
            assert(v@.subrange(0, 0) =~= Seq::<char>::empty());
            assert(ranges_view(v@, deps@) =~= Seq::<Seq<char>>::empty());
            assert(info_in(v@, name_r, ver_r, deps@) == blank_info());
        }
        while more
            invariant
                v@ == content@,
                n == v@.len(),
                sep@ == " = "@,
                pos <= n,
                name_r.0 <= name_r.1 <= n,
                ver_r.0 <= ver_r.1 <= n,
                sec_r.0 <= sec_r.1 <= n,
                ranges_within(deps@, n as nat),
                init == (TomlState { info: blank_info(), section: Seq::empty() }),
                more ==> fold_pieces(
                    TomlState {
                        info: info_in(v@, name_r, ver_r, deps@),
                        section: v@.subrange(sec_r.0 as int, sec_r.1 as int),
                    },
                    raw_lines(v@.subrange(pos as int, n as int)),
                    cargo_line_fn(),
                ) == fold_pieces(init, raw_lines(content@), cargo_line_fn()),
                !more ==> (TomlState {
                    info: info_in(v@, name_r, ver_r, deps@),
                    section: v@.subrange(sec_r.0 as int, sec_r.1 as int),
                }) == fold_pieces(init, raw_lines(content@), cargo_line_fn()),
            decreases
                if more {
                    n - pos + 1
                } else {
                    0
                },
        {
            let a = skip_lead(&v, pos, n, Pat::NotCh('\n'));
            proof {
                lemma_split_step(v@, pos as int, a as int, n as int, '\n');
            }
            let ghost before = TomlState {
                info: info_in(v@, name_r, ver_r, deps@),
                section: v@.subrange(sec_r.0 as int, sec_r.1 as int),
            };
            let ghost seg = v@.subrange(pos as int, a as int);
            let (la, lb) = strip_range(&v, pos, a, Pat::Ws);
            let ghost line = v@.subrange(la as int, lb as int);
            if la < lb && v[la] == '[' {
                sec_r = strip_range(&v, la, lb, Pat::Brackets);
            } else if word_eq(&v, sec_r.0, sec_r.1, "package") {
                match find_in(&v, la, lb, &sep) {
                    Some(k) => {
                        let vs = k + sep.len();
                        proof {
                            assert(line.take(k - la) =~= v@.subrange(la as int, k as int));
                            assert(line.skip(k - la + sep@.len()) =~= v@.subrange(
                                vs as int,
                                lb as int,
                            ));
                        }
                        if word_eq(&v, la, k, "name") {
                            name_r = strip_range(&v, vs, lb, Pat::Ch('"'));
                        } else if word_eq(&v, la, k, "version") {
                            ver_r = strip_range(&v, vs, lb, Pat::Ch('"'));
                        }
                    },
                    None => {},
                }
            } else if word_eq(&v, sec_r.0, sec_r.1, "dependencies") {
                match find_in(&v, la, lb, &sep) {
                    Some(k) => {
                        proof {
                            assert(line.take(k - la) =~= v@.subrange(la as int, k as int));
                        }
                        let r = strip_range(&v, la, k, Pat::Ws);
                        proof {
                            lemma_ranges_view_push(v@, deps@, r);
                        }
                        deps.push(r);
                    },
                    None => {},
                }
            }
            proof {
                let after = TomlState {
                    info: info_in(v@, name_r, ver_r, deps@),
                    section: v@.subrange(sec_r.0 as int, sec_r.1 as int),
                };
                assert(after == cargo_line(before, seg));
                if a < n {
                    lemma_fold_pieces_cons(
                        before,
                        seg,
                        raw_lines(v@.subrange(a + 1, n as int)),
                        cargo_line_fn(),
                    );
                } else {
                    lemma_fold_pieces_cons(before, seg, Seq::empty(), cargo_line_fn());
                    assert(seq![seg] + Seq::<Seq<char>>::empty() =~= seq![seg]);
                }
            }
            if a < n {
                pos = a + 1;
            } else {
                more = false;
            }
        }
        PackageInfo {
            name: slice_string(content, name_r.0, name_r.1),
            version: slice_string(content, ver_r.0, ver_r.1),
            depend: range_strings(content, &deps),
        }
    }
}


// ---------------------------------------------------------------------------
// CMakeLists.txt

/// Whether a line opens a `project(` call: its lowercase form starts with
/// `project(`. The only characters whose lowercase form is one of the characters of
/// `project(` are those characters and their ASCII capitals, so this asks that the
/// first eight characters spell `project(` in any mix of ASCII case.
pub open spec fn opens_project(line: Seq<char>) -> bool {
    &&& line.len() >= 8
    &&& forall|i: int| 0 <= i < 8 ==> #[trigger] line[i] == "project("@[i] || line[i] == "PROJECT("@[i]
}

/// Whether the uppercase form of a word is `VERSION`: ASCII letters in any case,
/// and besides them the dotless `ı` (uppercase `I`) and the long `ſ` (uppercase `S`),
/// the only other characters whose uppercase forms are among these letters.
pub open spec fn is_version_word(w: Seq<char>) -> bool {
    &&& w.len() == 7
    &&& forall|i: int|
        0 <= i < 7 ==> #[trigger] w[i] == "version"@[i] || w[i] == "VERSION"@[i] || (i == 3
            && w[i] == '\u{17F}') || (i == 4 && w[i] == '\u{131}')
}

/// The first `VERSION` keyword at or after `i` that has a word after it.
pub open spec fn version_word_from(parts: Seq<Seq<char>>, i: int) -> Option<int>
    decreases parts.len() - i,
{
    if i < 0 || i + 1 >= parts.len() {
        None
    } else if is_version_word(parts[i]) {
        Some(i)
    } else {
        version_word_from(parts, i + 1)
    }
}

/// The arguments of a `project(...)` line: what follows the first `(` and any more
/// opening parentheses, without closing parentheses at its end, trimmed.
pub open spec fn project_args(line: Seq<char>) -> Seq<char> {
    trim(strip_end(strip_start(strip_start(line, Pat::NotCh('(')), Pat::Ch('(')), Pat::Ch(')')))
}

/// One line of a `CMakeLists.txt`, trimmed: a `project(` line names the package after
/// its first argument and, where a `VERSION` keyword with an argument after it comes,
/// gives the version after the first such keyword, both without surrounding double
/// quotes.
pub open spec fn cmake_line(st: PackageInfoView, seg: Seq<char>) -> PackageInfoView {
    let line = trim(seg);
    if opens_project(line) {
        let parts = words(project_args(line));
        let st1 = if parts.len() > 0 {
            PackageInfoView { name: strip(parts[0], Pat::Ch('"')), ..st }
        } else {
            st
        };
        match version_word_from(parts, 0) {
            Some(i) => PackageInfoView { version: strip(parts[i + 1], Pat::Ch('"')), ..st1 },
            None => st1,
        }
    } else {
        st
    }
}

pub open spec fn cmake_line_fn() -> spec_fn(PackageInfoView, Seq<char>) -> PackageInfoView {
    |st: PackageInfoView, seg: Seq<char>| cmake_line(st, seg)
}

/// The version given to a package whose build files name none.
pub open spec fn default_version() -> Seq<char> {
    "0.1.0"@
}

/// A description with the default version in place of an empty one.
pub open spec fn with_default_version(st: PackageInfoView) -> PackageInfoView {
    if st.version.len() == 0 {
        PackageInfoView { version: default_version(), ..st }
    } else {
        st
    }
}

/// What a `CMakeLists.txt` says of its package.
pub open spec fn spec_parse_cmake(content: Seq<char>) -> PackageInfoView {
    with_default_version(fold_pieces(blank_info(), raw_lines(content), cmake_line_fn()))
}

/// Whether `v[a..b]` opens a `project(` call.
fn opens_project_at(v: &Vec<char>, a: usize, b: usize, lower: &Vec<char>, upper: &Vec<char>) -> (r: bool)
    requires
        a <= b <= v@.len(),
        lower@ == "project("@,
        upper@ == "PROJECT("@,
    ensures
        r == opens_project(v@.subrange(a as int, b as int)),
{
    let ghost line = v@.subrange(a as int, b as int);
    proof {
        reveal_strlit("project(");
        reveal_strlit("PROJECT(");
    }
    if b - a < 8 {
        return false;
    }
    let mut i: usize = 0;
    while i < 8
        invariant
            a + 8 <= b <= v@.len(),
            line == v@.subrange(a as int, b as int),
            lower@ == "project("@,
            upper@ == "PROJECT("@,
            lower@.len() == 8,
            upper@.len() == 8,
            i <= 8,
            forall|j: int| 0 <= j < i ==> #[trigger] line[j] == "project("@[j] || line[j]
                == "PROJECT("@[j],
        decreases 8 - i,
    {
        let c = v[a + i];
        if c != lower[i] && c != upper[i] {
            assert(line[i as int] == c);
            return false;
        }
        i = i + 1;
    }
    true
}

/// Whether `v[a..b]` is the `VERSION` keyword.
fn is_version_word_at(v: &Vec<char>, a: usize, b: usize, lower: &Vec<char>, upper: &Vec<char>) -> (r: bool)
    requires
        a <= b <= v@.len(),
        lower@ == "version"@,
        upper@ == "VERSION"@,
    ensures
        r == is_version_word(v@.subrange(a as int, b as int)),
{
    let ghost w = v@.subrange(a as int, b as int);
    proof {
        reveal_strlit("version");
        reveal_strlit("VERSION");
    }
    if b - a != 7 {
        return false;
    }
    let mut i: usize = 0;
    while i < 7
        invariant
            a + 7 == b <= v@.len(),
            w == v@.subrange(a as int, b as int),
            lower@ == "version"@,
            upper@ == "VERSION"@,
            lower@.len() == 7,
            upper@.len() == 7,
            i <= 7,
            forall|j: int|
                0 <= j < i ==> #[trigger] w[j] == "version"@[j] || w[j] == "VERSION"@[j] || (j
                    == 3 && w[j] == '\u{17F}') || (j == 4 && w[j] == '\u{131}'),
        decreases 7 - i,
    {
        let c = v[a + i];
        if c != lower[i] && c != upper[i] && !(i == 3 && c == '\u{17F}') && !(i == 4 && c
            == '\u{131}') {
            assert(w[i as int] == c);
            return false;
        }
        i = i + 1;
    }
    true
}

impl PackageInfo {
    /// Reads name and version out of a `CMakeLists.txt`; the version is `0.1.0`
    /// where none is given.
    pub fn parse_cmake(content: &str) -> (info: PackageInfo)
        ensures
            info@ == spec_parse_cmake(content@),
    {
        let v = chars_of(content);
        let n = v.len();
        let lower = chars_of("project(");
        let upper = chars_of("PROJECT(");
        let vlower = chars_of("version");
        let vupper = chars_of("VERSION");
        let mut name_r: (usize, usize) = (0, 0);
        let mut ver_r: (usize, usize) = (0, 0);
        let deps: Vec<(usize, usize)> = Vec::new();
        let mut pos: usize = 0;
        let mut more = true;
        proof {
            assert(v@.subrange(0, n as int) =~= v@);
            assert(v@.subrange(0, 0) =~= Seq::<char>::empty());
            assert(ranges_view(v@, deps@) =~= Seq::<Seq<char>>::empty());
            assert(info_in(v@, name_r, ver_r, deps@) == blank_info());
        }
        while more
            invariant
                v@ == content@,
                n == v@.len(),
                lower@ == "project("@,
                upper@ == "PROJECT("@,
                vlower@ == "version"@,
                vupper@ == "VERSION"@,
                deps@ == Seq::<(usize, usize)>::empty(),
                pos <= n,
                name_r.0 <= name_r.1 <= n,
                ver_r.0 <= ver_r.1 <= n,
                more ==> fold_pieces(
                    info_in(v@, name_r, ver_r, deps@),
                    raw_lines(v@.subrange(pos as int, n as int)),
                    cmake_line_fn(),
                ) == fold_pieces(blank_info(), raw_lines(content@), cmake_line_fn()),
                !more ==> info_in(v@, name_r, ver_r, deps@) == fold_pieces(
                    blank_info(),
                    raw_lines(content@),
                    cmake_line_fn(),
                ),
            decreases
                if more {
                    n - pos + 1
                } else {
                    0
                },
        {
            let a = skip_lead(&v, pos, n, Pat::NotCh('\n'));
            proof {
                lemma_split_step(v@, pos as int, a as int, n as int, '\n');
            }
            let ghost before = info_in(v@, name_r, ver_r, deps@);
            let ghost seg = v@.subrange(pos as int, a as int);
            let (la, lb) = strip_range(&v, pos, a, Pat::Ws);
            if opens_project_at(&v, la, lb, &lower, &upper) {
                let a1 = skip_lead(&v, la, lb, Pat::NotCh('('));
                let a2 = skip_lead(&v, a1, lb, Pat::Ch('('));
                let b1 = skip_trail(&v, a2, lb, Pat::Ch(')'));
                let (ia, ib) = strip_range(&v, a2, b1, Pat::Ws);
                let ws = word_ranges(&v, ia, ib);
                let ghost parts = ranges_view(v@, ws@);
                let ghost st1 = if parts.len() > 0 {
                    PackageInfoView { name: strip(parts[0], Pat::Ch('"')), ..before }
                } else {
                    before
                };
                if ws.len() > 0 {
                    let (wa, wb) = ws[0];
                    name_r = strip_range(&v, wa, wb, Pat::Ch('"'));
                }
                assert(info_in(v@, name_r, ver_r, deps@) == st1);
                let mut i: usize = 0;
                let mut found = false;
                while !found && i < ws.len() && ws.len() - i > 1
                    invariant
                        ws@.len() == parts.len(),
                        forall|j: int| #![trigger ws@[j]] 0 <= j < ws@.len() ==> ia <= ws@[j].0 <= ws@[j].1 <= ib,
                        ib <= n,
                        n == v@.len(),
                        parts == ranges_view(v@, ws@),
                        vlower@ == "version"@,
                        vupper@ == "VERSION"@,
                        name_r.0 <= name_r.1 <= n,
                        ver_r.0 <= ver_r.1 <= n,
                        !found ==> version_word_from(parts, 0) == version_word_from(parts, i as int),
                        !found ==> info_in(v@, name_r, ver_r, deps@) == st1,
                        found ==> info_in(v@, name_r, ver_r, deps@) == (match version_word_from(parts, 0) {
                            Some(k) => PackageInfoView { version: strip(parts[k + 1], Pat::Ch('"')), ..st1 },
                            None => st1,
                        }),
                        i <= ws@.len(),
                    decreases
                            if found {
                                0
                            } else {
                                ws@.len() - i + 1
                            },
                {
                    let (wa, wb) = ws[i];
                    if is_version_word_at(&v, wa, wb, &vlower, &vupper) {
                        let (xa, xb) = ws[i + 1];
                        ver_r = strip_range(&v, xa, xb, Pat::Ch('"'));
                        found = true;
                    } else {
                        i = i + 1;
                    }
                }
                proof {
                    if !found {
                        assert(version_word_from(parts, i as int) is None);
                    }
                    let line = v@.subrange(la as int, lb as int);
                    assert(strip_start(line, Pat::NotCh('(')) == v@.subrange(a1 as int, lb as int));
                    assert(project_args(line) == v@.subrange(ia as int, ib as int));
                }
            }
            proof {
                assert(info_in(v@, name_r, ver_r, deps@) == cmake_line(before, seg));
                if a < n {
                    lemma_fold_pieces_cons(
                        before,
                        seg,
                        raw_lines(v@.subrange(a + 1, n as int)),
                        cmake_line_fn(),
                    );
                } else {
                    lemma_fold_pieces_cons(before, seg, Seq::empty(), cmake_line_fn());
                    assert(seq![seg] + Seq::<Seq<char>>::empty() =~= seq![seg]);
                }
            }
            if a < n {
                pos = a + 1;
            } else {
                more = false;
            }
        }
        let version = if ver_r.0 == ver_r.1 {
            owned("0.1.0")
        } else {
            slice_string(content, ver_r.0, ver_r.1)
        };
        let depend: Vec<String> = Vec::new();
        proof {
            assert(strings_view(depend@) =~= Seq::<Seq<char>>::empty());
        }
        PackageInfo { name: slice_string(content, name_r.0, name_r.1), version, depend }
    }
}


// ---------------------------------------------------------------------------
// meson.build

/// The text between the first two single quotes of `s`.
pub open spec fn first_quoted(s: Seq<char>) -> Option<Seq<char>> {
    let i = lead(s, Pat::NotCh('\'')) as int;
    if i < s.len() {
        let rest = s.subrange(i + 1, s.len() as int);
        let j = lead(rest, Pat::NotCh('\'')) as int;
        if j < rest.len() {
            Some(rest.take(j))
        } else {
            None
        }
    } else {
        None
    }
}

/// One line of a `meson.build`, trimmed: a line starting with `project(` names the
/// package after its first single-quoted text and, where `version:` occurs in it,
/// gives the version after the first single-quoted text that follows the first
/// `version:`.
pub open spec fn meson_line(st: PackageInfoView, seg: Seq<char>) -> PackageInfoView {
    let line = trim(seg);
    if starts_with(line, "project("@) {
        let st1 = match first_quoted(line) {
            Some(q) => PackageInfoView { name: q, ..st },
            None => st,
        };
        match find_str(line, "version:"@) {
            Some(p) => match first_quoted(line.skip(p + "version:"@.len())) {
                Some(q) => PackageInfoView { version: q, ..st1 },
                None => st1,
            },
            None => st1,
        }
    } else {
        st
    }
}

pub open spec fn meson_line_fn() -> spec_fn(PackageInfoView, Seq<char>) -> PackageInfoView {
    |st: PackageInfoView, seg: Seq<char>| meson_line(st, seg)
}

/// What a `meson.build` says of its package.
pub open spec fn spec_parse_meson(content: Seq<char>) -> PackageInfoView {
    with_default_version(fold_pieces(blank_info(), raw_lines(content), meson_line_fn()))
}

/// The range of the first single-quoted text of `v[lo..hi]`.
fn quoted_in(v: &Vec<char>, lo: usize, hi: usize) -> (r: Option<(usize, usize)>)
    requires
        lo <= hi <= v@.len(),
    ensures
        match r {
            Some((a, b)) => lo <= a <= b <= hi && first_quoted(v@.subrange(lo as int, hi as int))
                == Some(v@.subrange(a as int, b as int)),
            None => first_quoted(v@.subrange(lo as int, hi as int)) is None,
        },
{
    let ghost s = v@.subrange(lo as int, hi as int);
    let a = skip_lead(v, lo, hi, Pat::NotCh('\''));
    if a < hi {
        let b = skip_lead(v, a + 1, hi, Pat::NotCh('\''));
        proof {
            assert(s.subrange(a - lo + 1, s.len() as int) =~= v@.subrange(a + 1, hi as int));
            assert(v@.subrange(a + 1, hi as int).take(b - a - 1) =~= v@.subrange(
                a + 1,
                b as int,
            ));
        }
        if b < hi {
            Some((a + 1, b))
        } else {
            None
        }
    } else {
        None
    }
}

/// Whether `v[a..b]` starts with `p`.
fn starts_with_at(v: &Vec<char>, a: usize, b: usize, p: &Vec<char>) -> (r: bool)
    requires
        a <= b <= v@.len(),
    ensures
        r == starts_with(v@.subrange(a as int, b as int), p@),
{
    if p.len() > b - a {
        return false;
    }
    proof {
        assert(v@.subrange(a as int, b as int).take(p@.len() as int) =~= v@.subrange(
            a as int,
            a + p@.len(),
        ));
    }
    range_eq(v, a, p)
}

impl PackageInfo {
    /// Reads name and version out of a `meson.build`; the version is `0.1.0` where
    /// none is given.
    pub fn parse_meson(content: &str) -> (info: PackageInfo)
        ensures
            info@ == spec_parse_meson(content@),
    {
        let v = chars_of(content);
        let n = v.len();
        let opener = chars_of("project(");
        let key = chars_of("version:");
        let mut name_r: (usize, usize) = (0, 0);
        let mut ver_r: (usize, usize) = (0, 0);
        let deps: Vec<(usize, usize)> = Vec::new();
        let mut pos: usize = 0;
        let mut more = true;
        proof {
            assert(v@.subrange(0, n as int) =~= v@);
            assert(v@.subrange(0, 0) =~= Seq::<char>::empty());
            assert(ranges_view(v@, deps@) =~= Seq::<Seq<char>>::empty());
            assert(info_in(v@, name_r, ver_r, deps@) == blank_info());
        }
        while more
            invariant
                v@ == content@,
                n == v@.len(),
                opener@ == "project("@,
                key@ == "version:"@,
                deps@ == Seq::<(usize, usize)>::empty(),
                pos <= n,
                name_r.0 <= name_r.1 <= n,
                ver_r.0 <= ver_r.1 <= n,
                more ==> fold_pieces(
                    info_in(v@, name_r, ver_r, deps@),
                    raw_lines(v@.subrange(pos as int, n as int)),
                    meson_line_fn(),
                ) == fold_pieces(blank_info(), raw_lines(content@), meson_line_fn()),
                !more ==> info_in(v@, name_r, ver_r, deps@) == fold_pieces(
                    blank_info(),
                    raw_lines(content@),
                    meson_line_fn(),
                ),
            decreases
                if more {
                    n - pos + 1
                } else {
                    0
                },
        {
            let a = skip_lead(&v, pos, n, Pat::NotCh('\n'));
            proof {
                lemma_split_step(v@, pos as int, a as int, n as int, '\n');
            }
            let ghost before = info_in(v@, name_r, ver_r, deps@);
            let ghost seg = v@.subrange(pos as int, a as int);
            let (la, lb) = strip_range(&v, pos, a, Pat::Ws);
            let ghost line = v@.subrange(la as int, lb as int);
            if starts_with_at(&v, la, lb, &opener) {
                match quoted_in(&v, la, lb) {
                    Some(r) => {
                        name_r = r;
                    },
                    None => {},
                }
                match find_in(&v, la, lb, &key) {
                    Some(k) => {
                        let after = k + key.len();
                        proof {
                            assert(line.skip(k - la + key@.len()) =~= v@.subrange(
                                after as int,
                                lb as int,
                            ));
                        }
                        match quoted_in(&v, after, lb) {
                            Some(r) => {
                                ver_r = r;
                            },
                            None => {},
                        }
                    },
                    None => {},
                }
            }
            proof {
                assert(info_in(v@, name_r, ver_r, deps@) == meson_line(before, seg));
                if a < n {
                    lemma_fold_pieces_cons(
                        before,
                        seg,
                        raw_lines(v@.subrange(a + 1, n as int)),
                        meson_line_fn(),
                    );
                } else {
                    lemma_fold_pieces_cons(before, seg, Seq::empty(), meson_line_fn());
                    assert(seq![seg] + Seq::<Seq<char>>::empty() =~= seq![seg]);
                }
            }
            if a < n {
                pos = a + 1;
            } else {
                more = false;
            }
        }
        let version = if ver_r.0 == ver_r.1 {
            owned("0.1.0")
        } else {
            slice_string(content, ver_r.0, ver_r.1)
        };
        let depend: Vec<String> = Vec::new();
        proof {
            assert(strings_view(depend@) =~= Seq::<Seq<char>>::empty());
        }
        PackageInfo { name: slice_string(content, name_r.0, name_r.1), version, depend }
    }
}


// ---------------------------------------------------------------------------
// pls.toml

/// A value as a `pls.toml` gives it: trimmed, then without surrounding double quotes,
/// then without surrounding single quotes.
pub open spec fn pls_value(s: Seq<char>) -> Seq<char> {
    strip(strip(trim(s), Pat::Ch('"')), Pat::Ch('\''))
}

/// One element of a dependency list: kept, unquoted, unless it is empty.
pub open spec fn dep_item(acc: Seq<Seq<char>>, piece: Seq<char>) -> Seq<Seq<char>> {
    let d = pls_value(piece);
    if d.len() > 0 {
        acc.push(d)
    } else {
        acc
    }
}

pub open spec fn dep_item_fn() -> spec_fn(Seq<Seq<char>>, Seq<char>) -> Seq<Seq<char>> {
    |acc: Seq<Seq<char>>, piece: Seq<char>| dep_item(acc, piece)
}

/// `acc` followed by the non-empty elements of a comma-separated list.
pub open spec fn list_deps(acc: Seq<Seq<char>>, inner: Seq<char>) -> Seq<Seq<char>> {
    fold_pieces(acc, split_char(inner, ','), dep_item_fn())
}

/// One line of a `pls.toml`, trimmed, split at its first `=`: with the trimmed key
/// `name` or `version` the value sets name or version; with `depend` or `deps` a
/// value in brackets adds each non-empty element of the comma-separated list
/// inside, any other value is added as one dependency. Every other line is ignored.
pub open spec fn pls_line(st: PackageInfoView, seg: Seq<char>) -> PackageInfoView {
    match split_once_char(trim(seg), '=') {
        Some((k, val)) => {
            let key = trim(k);
            let value = pls_value(val);
            if key == "name"@ {
                PackageInfoView { name: value, ..st }
            } else if key == "version"@ {
                PackageInfoView { version: value, ..st }
            } else if key == "depend"@ || key == "deps"@ {
                if value.len() > 0 && value[0] == '[' {
                    PackageInfoView { depend: list_deps(st.depend, strip(value, Pat::Brackets)), ..st }
                } else {
                    PackageInfoView { depend: st.depend.push(value), ..st }
                }
            } else {
                st
            }
        },
        None => st,
    }
}

pub open spec fn pls_line_fn() -> spec_fn(PackageInfoView, Seq<char>) -> PackageInfoView {
    |st: PackageInfoView, seg: Seq<char>| pls_line(st, seg)
}

/// What a `pls.toml` says of its package.
pub open spec fn spec_parse_pls_toml(content: Seq<char>) -> PackageInfoView {
    with_default_version(fold_pieces(blank_info(), raw_lines(content), pls_line_fn()))
}

/// The range of `pls_value(v[a..b])`.
pub fn pls_value_range(v: &Vec<char>, a: usize, b: usize) -> (r: (usize, usize))
    requires
        a <= b <= v@.len(),
    ensures
        a <= r.0 <= r.1 <= b,
        v@.subrange(r.0 as int, r.1 as int) == pls_value(v@.subrange(a as int, b as int)),
{
    let r1 = strip_range(v, a, b, Pat::Ws);
    let r2 = strip_range(v, r1.0, r1.1, Pat::Ch('"'));
    strip_range(v, r2.0, r2.1, Pat::Ch('\''))
}

/// Adds the non-empty elements of the comma-separated list `v[lo..hi]`.
fn push_list_deps(v: &Vec<char>, lo: usize, hi: usize, deps: &mut Vec<(usize, usize)>)
    requires
        lo <= hi <= v@.len(),
        ranges_within(old(deps)@, v@.len()),
    ensures
        ranges_within(final(deps)@, v@.len()),
        ranges_view(v@, final(deps)@) == list_deps(
            ranges_view(v@, old(deps)@),
            v@.subrange(lo as int, hi as int),
        ),
{
    let ghost target = list_deps(ranges_view(v@, deps@), v@.subrange(lo as int, hi as int));
    let mut pos = lo;
    let mut more = true;
    while more
        invariant
            lo <= pos <= hi <= v@.len(),
            ranges_within(deps@, v@.len()),
            more ==> fold_pieces(
                ranges_view(v@, deps@),
                split_char(v@.subrange(pos as int, hi as int), ','),
                dep_item_fn(),
            ) == target,
            !more ==> ranges_view(v@, deps@) == target,
        decreases
            if more {
                hi - pos + 1
            } else {
                0
            },
    {
        let a = skip_lead(v, pos, hi, Pat::NotCh(','));
        proof {
            lemma_split_step(v@, pos as int, a as int, hi as int, ',');
        }
        let ghost before = ranges_view(v@, deps@);
        let ghost piece = v@.subrange(pos as int, a as int);
        let r = pls_value_range(v, pos, a);
        if r.0 < r.1 {
            proof {
                lemma_ranges_view_push(v@, deps@, r);
            }
            deps.push(r);
        }
        proof {
            assert(ranges_view(v@, deps@) == dep_item(before, piece));
            if a < hi {
                lemma_fold_pieces_cons(
                    before,
                    piece,
                    split_char(v@.subrange(a + 1, hi as int), ','),
                    dep_item_fn(),
                );
            } else {
                lemma_fold_pieces_cons(before, piece, Seq::empty(), dep_item_fn());
                assert(seq![piece] + Seq::<Seq<char>>::empty() =~= seq![piece]);
            }
        }
        if a < hi {
            pos = a + 1;
        } else {
            more = false;
        }
    }
}

/// `split_once_char` over a range: the position of the first `c` in `v[lo..hi]`.
fn split_once_at(v: &Vec<char>, lo: usize, hi: usize, c: char) -> (r: Option<usize>)
    requires
        lo <= hi <= v@.len(),
    ensures
        match r {
            Some(e) => lo <= e < hi && split_once_char(v@.subrange(lo as int, hi as int), c)
                == Some((v@.subrange(lo as int, e as int), v@.subrange(e + 1, hi as int))),
            None => split_once_char(v@.subrange(lo as int, hi as int), c) is None,
        },
{
    let e = skip_lead(v, lo, hi, Pat::NotCh(c));
    let ghost s = v@.subrange(lo as int, hi as int);
    if e < hi {
        proof {
            assert(s.take(e - lo) =~= v@.subrange(lo as int, e as int));
            assert(s.subrange(e - lo + 1, s.len() as int) =~= v@.subrange(e + 1, hi as int));
        }
        Some(e)
    } else {
        None
    }
}

impl PackageInfo {
    /// Reads name, version and dependencies out of a `pls.toml`; the version is
    /// `0.1.0` where none is given.
    pub fn parse_pls_toml(content: &str) -> (info: PackageInfo)
        ensures
            info@ == spec_parse_pls_toml(content@),
    {
        let v = chars_of(content);
        let n = v.len();
        let mut name_r: (usize, usize) = (0, 0);
        let mut ver_r: (usize, usize) = (0, 0);
        let mut deps: Vec<(usize, usize)> = Vec::new();
        let mut pos: usize = 0;
        let mut more = true;
        proof {
            assert(v@.subrange(0, n as int) =~= v@);
            assert(v@.subrange(0, 0) =~= Seq::<char>::empty());
            assert(ranges_view(v@, deps@) =~= Seq::<Seq<char>>::empty());
            assert(info_in(v@, name_r, ver_r, deps@) == blank_info());
        }
        while more
            invariant
                v@ == content@,
                n == v@.len(),
                pos <= n,
                name_r.0 <= name_r.1 <= n,
                ver_r.0 <= ver_r.1 <= n,
                ranges_within(deps@, n as nat),
                more ==> fold_pieces(
                    info_in(v@, name_r, ver_r, deps@),
                    raw_lines(v@.subrange(pos as int, n as int)),
                    pls_line_fn(),
                ) == fold_pieces(blank_info(), raw_lines(content@), pls_line_fn()),
                !more ==> info_in(v@, name_r, ver_r, deps@) == fold_pieces(
                    blank_info(),
                    raw_lines(content@),
                    pls_line_fn(),
                ),
            decreases
                if more {
                    n - pos + 1
                } else {
                    0
                },
        {
            let a = skip_lead(&v, pos, n, Pat::NotCh('\n'));
            proof {
                lemma_split_step(v@, pos as int, a as int, n as int, '\n');
            }
            let ghost before = info_in(v@, name_r, ver_r, deps@);
            let ghost seg = v@.subrange(pos as int, a as int);
            let (la, lb) = strip_range(&v, pos, a, Pat::Ws);
            match split_once_at(&v, la, lb, '=') {
                Some(e) => {
                    let (ka, kb) = strip_range(&v, la, e, Pat::Ws);
                    let value = pls_value_range(&v, e + 1, lb);
                    if word_eq(&v, ka, kb, "name") {
                        name_r = value;
                    } else if word_eq(&v, ka, kb, "version") {
                        ver_r = value;
                    } else if word_eq(&v, ka, kb, "depend") || word_eq(&v, ka, kb, "deps") {
                        if value.0 < value.1 && v[value.0] == '[' {
                            let inner = strip_range(&v, value.0, value.1, Pat::Brackets);
                            push_list_deps(&v, inner.0, inner.1, &mut deps);
                        } else {
                            proof {
                                lemma_ranges_view_push(v@, deps@, value);
                            }
                            deps.push(value);
                        }
                    }
                },
                None => {},
            }
            proof {
                assert(info_in(v@, name_r, ver_r, deps@) == pls_line(before, seg));
                if a < n {
                    lemma_fold_pieces_cons(
                        before,
                        seg,
                        raw_lines(v@.subrange(a + 1, n as int)),
                        pls_line_fn(),
                    );
                } else {
                    lemma_fold_pieces_cons(before, seg, Seq::empty(), pls_line_fn());
                    assert(seq![seg] + Seq::<Seq<char>>::empty() =~= seq![seg]);
                }
            }
            if a < n {
                pos = a + 1;
            } else {
                more = false;
            }
        }
        let version = if ver_r.0 == ver_r.1 {
            owned("0.1.0")
        } else {
            slice_string(content, ver_r.0, ver_r.1)
        };
        PackageInfo {
            name: slice_string(content, name_r.0, name_r.1),
            version,
            depend: range_strings(content, &deps),
        }
    }
}


// ---------------------------------------------------------------------------
// Laws of the build-file readers

/// A `CMakeLists.txt`, a `meson.build` and a `pls.toml` always yield a version:
/// `0.1.0` where they name none.
pub proof fn lemma_build_file_version_nonempty(content: Seq<char>)
    ensures
        spec_parse_cmake(content).version.len() > 0,
        spec_parse_meson(content).version.len() > 0,
        spec_parse_pls_toml(content).version.len() > 0,
{
    reveal_strlit("0.1.0");
}

/// A `CMakeLists.txt` and a `meson.build` never yield dependencies.
pub proof fn lemma_cmake_meson_no_deps(content: Seq<char>)
    ensures
        spec_parse_cmake(content).depend.len() == 0,
        spec_parse_meson(content).depend.len() == 0,
{
    let inv = |s: PackageInfoView| s.depend.len() == 0;
    assert forall|s: PackageInfoView, l: Seq<char>| inv(s) implies #[trigger] inv(
        cmake_line_fn()(s, l),
    ) by {
        assert(cmake_line_fn()(s, l) == cmake_line(s, l));
    }
    assert forall|s: PackageInfoView, l: Seq<char>| inv(s) implies #[trigger] inv(
        meson_line_fn()(s, l),
    ) by {
        assert(meson_line_fn()(s, l) == meson_line(s, l));
    }
    assert(inv(blank_info()));
    lemma_fold_pieces_keeps(blank_info(), raw_lines(content), cmake_line_fn(), inv);
    lemma_fold_pieces_keeps(blank_info(), raw_lines(content), meson_line_fn(), inv);
}


/// Name and version of a description each fit on one line.
pub open spec fn one_line_fields(st: PackageInfoView) -> bool {
    lacks(st.name, '\n') && lacks(st.version, '\n')
}

proof fn lemma_version_word_bound(parts: Seq<Seq<char>>, i: int)
    ensures
        version_word_from(parts, i) matches Some(k) ==> 0 <= k && k + 1 < parts.len(),
    decreases parts.len() - i,
{
    if !(i < 0 || i + 1 >= parts.len()) && !is_version_word(parts[i]) {
        lemma_version_word_bound(parts, i + 1);
    }
}

proof fn lemma_first_quoted_lacks(s: Seq<char>, c: char)
    requires
        lacks(s, c),
    ensures
        first_quoted(s) matches Some(q) ==> lacks(q, c),
{
    let i = lead(s, Pat::NotCh('\'')) as int;
    if i < s.len() {
        let rest = s.subrange(i + 1, s.len() as int);
        lemma_lacks_subrange(s, i + 1, s.len() as int, c);
        let j = lead(rest, Pat::NotCh('\'')) as int;
        if j < rest.len() {
            lemma_lacks_subrange(rest, 0, j, c);
            assert(rest.take(j) =~= rest.subrange(0, j));
        }
    }
}

proof fn lemma_info_line_one_line(st: PackageInfoView, l: Seq<char>)
    requires
        one_line_fields(st),
        lacks(l, '\n'),
    ensures
        one_line_fields(info_line(st, l)),
{
    lemma_lacks_strip(l, Pat::Ws, '\n');
    lemma_lacks_split_once_str(trim(l), " = "@, '\n');
}

proof fn lemma_cargo_line_one_line(st: TomlState, l: Seq<char>)
    requires
        one_line_fields(st.info),
        lacks(l, '\n'),
    ensures
        one_line_fields(cargo_line(st, l).info),
{
    let line = trim(l);
    lemma_lacks_strip(l, Pat::Ws, '\n');
    lemma_lacks_split_once_str(line, " = "@, '\n');
    if let Some((k, v)) = split_once_str(line, " = "@) {
        lemma_lacks_strip(v, Pat::Ch('"'), '\n');
    }
}

proof fn lemma_cmake_line_one_line(st: PackageInfoView, l: Seq<char>)
    requires
        one_line_fields(st),
        lacks(l, '\n'),
    ensures
        one_line_fields(cmake_line(st, l)),
{
    let line = trim(l);
    lemma_lacks_strip(l, Pat::Ws, '\n');
    let a = strip_start(line, Pat::NotCh('('));
    lemma_lacks_strip(line, Pat::NotCh('('), '\n');
    let b = strip_start(a, Pat::Ch('('));
    lemma_lacks_strip(a, Pat::Ch('('), '\n');
    let e = strip_end(b, Pat::Ch(')'));
    lemma_lacks_strip(b, Pat::Ch(')'), '\n');
    lemma_lacks_strip(e, Pat::Ws, '\n');
    let parts = words(project_args(line));
    lemma_words_lacks(project_args(line), '\n');
    if parts.len() > 0 {
        lemma_lacks_strip(parts[0], Pat::Ch('"'), '\n');
    }
    lemma_version_word_bound(parts, 0);
    if let Some(i) = version_word_from(parts, 0) {
        assert(lacks(parts[i + 1], '\n'));
        lemma_lacks_strip(parts[i + 1], Pat::Ch('"'), '\n');
    }
}

proof fn lemma_meson_line_one_line(st: PackageInfoView, l: Seq<char>)
    requires
        one_line_fields(st),
        lacks(l, '\n'),
    ensures
        one_line_fields(meson_line(st, l)),
{
    let line = trim(l);
    lemma_lacks_strip(l, Pat::Ws, '\n');
    lemma_first_quoted_lacks(line, '\n');
    lemma_find_from_bounds(line, "version:"@, 0);
    if let Some(p) = find_str(line, "version:"@) {
        let rest = line.skip(p + "version:"@.len());
        lemma_lacks_subrange(line, p + "version:"@.len(), line.len() as int, '\n');
        assert(rest =~= line.subrange(p + "version:"@.len(), line.len() as int));
        lemma_first_quoted_lacks(rest, '\n');
    }
}

proof fn lemma_pls_line_one_line(st: PackageInfoView, l: Seq<char>)
    requires
        one_line_fields(st),
        lacks(l, '\n'),
    ensures
        one_line_fields(pls_line(st, l)),
{
    let line = trim(l);
    lemma_lacks_strip(l, Pat::Ws, '\n');
    lemma_lacks_split_once_char(line, '=', '\n');
    if let Some((k, v)) = split_once_char(line, '=') {
        lemma_lacks_strip(v, Pat::Ws, '\n');
        lemma_lacks_strip(trim(v), Pat::Ch('"'), '\n');
        lemma_lacks_strip(strip(trim(v), Pat::Ch('"')), Pat::Ch('\''), '\n');
    }
}

/// Every reader of build and `info` files yields a name and a version that fit on one
/// line.
pub proof fn lemma_parsed_fields_one_line(content: Seq<char>)
    ensures
        one_line_fields(spec_parse_info(content)),
        one_line_fields(spec_parse_cargo_toml(content)),
        one_line_fields(spec_parse_cmake(content)),
        one_line_fields(spec_parse_meson(content)),
        one_line_fields(spec_parse_pls_toml(content)),
{
    reveal_strlit("0.1.0");
    let ls = raw_lines(content);
    lemma_split_char_lacks(content, '\n');
    let inv = |s: PackageInfoView| one_line_fields(s);
    assert(inv(blank_info()));
    assert forall|s: PackageInfoView, l: Seq<char>| inv(s) && lacks(l, '\n') implies #[trigger] inv(
        info_line_fn()(s, l),
    ) by {
        lemma_info_line_one_line(s, l);
    }
    lemma_fold_pieces_keeps_on(blank_info(), ls, info_line_fn(), inv, '\n');
    assert forall|s: PackageInfoView, l: Seq<char>| inv(s) && lacks(l, '\n') implies #[trigger] inv(
        cmake_line_fn()(s, l),
    ) by {
        lemma_cmake_line_one_line(s, l);
    }
    lemma_fold_pieces_keeps_on(blank_info(), ls, cmake_line_fn(), inv, '\n');
    assert forall|s: PackageInfoView, l: Seq<char>| inv(s) && lacks(l, '\n') implies #[trigger] inv(
        meson_line_fn()(s, l),
    ) by {
        lemma_meson_line_one_line(s, l);
    }
    lemma_fold_pieces_keeps_on(blank_info(), ls, meson_line_fn(), inv, '\n');
    assert forall|s: PackageInfoView, l: Seq<char>| inv(s) && lacks(l, '\n') implies #[trigger] inv(
        pls_line_fn()(s, l),
    ) by {
        lemma_pls_line_one_line(s, l);
    }
    lemma_fold_pieces_keeps_on(blank_info(), ls, pls_line_fn(), inv, '\n');
    let tinv = |s: TomlState| one_line_fields(s.info);
    let t0 = TomlState { info: blank_info(), section: Seq::empty() };
    assert(tinv(t0));
    assert forall|s: TomlState, l: Seq<char>| tinv(s) && lacks(l, '\n') implies #[trigger] tinv(
        cargo_line_fn()(s, l),
    ) by {
        lemma_cargo_line_one_line(s, l);
    }
    lemma_fold_pieces_keeps_on(t0, ls, cargo_line_fn(), tinv, '\n');
    assert(lacks(default_version(), '\n'));
}


/// Whether a line opens a table of a `Cargo.toml`: trimmed, it starts with `[`.
pub open spec fn opens_table(seg: Seq<char>) -> bool {
    trim(seg).len() > 0 && trim(seg)[0] == '['
}

/// In a `Cargo.toml`, a table other than `[package]` and `[dependencies]` adds
/// nothing: appending a line `t` that opens such a table, followed by lines `u` none
/// of which opens a table, leaves what is read unchanged.
pub proof fn lemma_cargo_unrelated_table(s: Seq<char>, t: Seq<char>, u: Seq<char>)
    requires
        lacks(t, '\n'),
        opens_table(t),
        strip(trim(t), Pat::Brackets) != "package"@,
        strip(trim(t), Pat::Brackets) != "dependencies"@,
        forall|k: int| 0 <= k < raw_lines(u).len() ==> !opens_table(#[trigger] raw_lines(u)[k]),
    ensures
        spec_parse_cargo_toml(s + seq!['\n'] + t + seq!['\n'] + u) == spec_parse_cargo_toml(s),
{
    let f = cargo_line_fn();
    let init = TomlState { info: blank_info(), section: Seq::empty() };
    let tu = t + seq!['\n'] + u;
    assert(s + seq!['\n'] + t + seq!['\n'] + u =~= s + seq!['\n'] + tu);
    lemma_split_char_concat(s, tu, '\n');
    assert forall|j: int| 0 <= j < t.len() implies t[j] != '\n' by {}
    lemma_split_char_first(t, u, '\n');
    let ls = raw_lines(s);
    let st = fold_pieces(init, ls, f);
    lemma_fold_pieces_append(init, ls, seq![t] + raw_lines(u), f);
    lemma_fold_pieces_cons(st, t, raw_lines(u), f);
    let st1 = cargo_line(st, t);
    assert(f(st, t) == st1);
    assert(st1.info == st.info);
    assert(st1.section == strip(trim(t), Pat::Brackets));
    assert forall|k: int| 0 <= k < raw_lines(u).len() implies f(st1, #[trigger] raw_lines(u)[k])
        == st1 by {
        assert(!opens_table(raw_lines(u)[k]));
        assert(f(st1, raw_lines(u)[k]) == cargo_line(st1, raw_lines(u)[k]));
    }
    lemma_fold_pieces_fixed(st1, raw_lines(u), f);
}

// ---------------------------------------------------------------------------
// Writing an `info` file.

/// The `info` file written for a package: a `name` line and a `version` line.
pub open spec fn info_text(name: Seq<char>, version: Seq<char>) -> Seq<char> {
    "name = "@ + name + "\nversion = "@ + version + "\n"@
}

/// The `info` file of a package with this name and version.
pub fn info_file_content(name: &str, version: &str) -> (text: String)
    ensures
        text@ == info_text(name@, version@),
{
    let mut text = owned("name = ");
    text.append(name);
    text.append("\nversion = ");
    text.append(version);
    text.append("\n");
    text
}

/// A trimmed line `key = x` splits at the `" = "` after `key` and yields `x` without
/// its trailing whitespace, unless `x` is all whitespace, when trimming eats the
/// space after `=` and the line no longer splits.
proof fn lemma_key_line(key: Seq<char>, x: Seq<char>)
    requires
        key.len() > 0,
        !is_ws(key[0]),
        forall|i: int| 0 <= i < key.len() ==> key[i] != ' ',
    ensures
        split_once_str(trim(key + " = "@ + x), " = "@) == (if trail(x, Pat::Ws) < x.len() {
            Some((key, strip_end(x, Pat::Ws)))
        } else {
            None::<(Seq<char>, Seq<char>)>
        }),
{
    reveal_strlit(" = ");
    let sep = " = "@;
    let ks = key + sep;
    let line = ks + x;
    lemma_trail_bound(x, Pat::Ws);
    assert(line[0] == key[0]);
    assert(lead(line, Pat::Ws) == 0);
    assert(line.skip(0) =~= line);
    lemma_trail_concat(ks, x, Pat::Ws);
    if trail(x, Pat::Ws) < x.len() {
        let t = ks + strip_end(x, Pat::Ws);
        assert(strip_end(line, Pat::Ws) =~= t);
        assert forall|i: int| 0 <= i < key.len() implies #[trigger] t[i] != sep[0] by {
            assert(t[i] == key[i]);
        }
        lemma_find_skip(t, sep, 0, key.len() as int);
        assert(t.subrange(key.len() as int, key.len() + 3int) =~= sep);
        assert(t.take(key.len() as int) =~= key);
        assert(t.skip(key.len() + 3int) =~= strip_end(x, Pat::Ws));
    } else {
        assert(ks.drop_last() =~= key + seq![' ', '=']);
        assert(ks.last() == ' ');
        assert(trail(ks.drop_last(), Pat::Ws) == 0);
        assert(trail(ks, Pat::Ws) == 1);
        let t = key + seq![' ', '='];
        assert(strip_end(line, Pat::Ws) =~= t);
        assert forall|i: int| 0 <= i < key.len() implies #[trigger] t[i] != sep[0] by {
            assert(t[i] == key[i]);
        }
        lemma_find_skip(t, sep, 0, key.len() as int);
        assert(find_from(t, sep, key.len() as int) is None);
    }
}

/// Reading back an `info` file gives the name and version it was written with, less
/// any trailing whitespace, and no dependencies.
pub proof fn lemma_info_round_trip(name: Seq<char>, version: Seq<char>)
    requires
        forall|i: int| 0 <= i < name.len() ==> name[i] != '\n',
        forall|i: int| 0 <= i < version.len() ==> version[i] != '\n',
    ensures
        spec_parse_info(info_text(name, version)) == (PackageInfoView {
            name: strip_end(name, Pat::Ws),
            version: strip_end(version, Pat::Ws),
            depend: Seq::empty(),
        }),
{
    reveal_strlit("name = ");
    reveal_strlit("\nversion = ");
    reveal_strlit("version = ");
    reveal_strlit("\n");
    reveal_strlit("name");
    reveal_strlit("version");
    reveal_strlit("depend");
    reveal_strlit(" = ");
    let l1 = "name = "@ + name;
    let l2 = "version = "@ + version;
    let e = Seq::<char>::empty();
    assert(info_text(name, version) =~= l1 + seq!['\n'] + (l2 + seq!['\n'] + e));
    assert forall|i: int| 0 <= i < l1.len() implies l1[i] != '\n' by {
        if i >= 7 {
            assert(l1[i] == name[i - 7]);
        }
    }
    assert forall|i: int| 0 <= i < l2.len() implies l2[i] != '\n' by {
        if i >= 10 {
            assert(l2[i] == version[i - 10]);
        }
    }
    lemma_split_char_first(l1, l2 + seq!['\n'] + e, '\n');
    lemma_split_char_first(l2, e, '\n');
    lemma_split_char_first(e, e, '\n');
    let ls = raw_lines(info_text(name, version));
    assert(ls =~= seq![l1, l2, e]);
    let f = info_line_fn();
    let s0 = blank_info();
    assert("name = "@ =~= "name"@ + " = "@);
    assert("version = "@ =~= "version"@ + " = "@);
    lemma_key_line("name"@, name);
    lemma_key_line("version"@, version);
    lemma_trail_bound(name, Pat::Ws);
    lemma_trail_bound(version, Pat::Ws);
    let s1 = info_line(s0, l1);
    assert(s1.name =~= strip_end(name, Pat::Ws));
    assert(s1.version =~= Seq::<char>::empty());
    let s2 = info_line(s1, l2);
    assert("version"@ != "name"@);
    assert(s2.version =~= strip_end(version, Pat::Ws));
    assert(trim(e) =~= e);
    assert(find_from(e, " = "@, 0) is None);
    let s3 = info_line(s2, e);
    assert(s3 == s2);
    assert(ls.drop_first() =~= seq![l2, e]);
    assert(ls.drop_first().drop_first() =~= seq![e]);
    assert(ls.drop_first().drop_first().drop_first() =~= Seq::<Seq<char>>::empty());
    let r1 = ls.drop_first();
    let r2 = r1.drop_first();
    let r3 = r2.drop_first();
    assert(f(s0, l1) == s1);
    assert(f(s1, l2) == s2);
    assert(f(s2, e) == s3);
    assert(fold_pieces(s2, r2, f) == fold_pieces(s3, r3, f));
    assert(fold_pieces(s1, r1, f) == fold_pieces(s2, r2, f));
    assert(fold_pieces(s0, ls, f) == fold_pieces(s1, r1, f));
    assert(fold_pieces(s0, ls, f) == s3);
}

} // verus!
