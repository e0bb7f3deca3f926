//! Where a package named on the command line comes from: a package file on disk,
//! a Debian package on the web, or the repository.
use vstd::prelude::*;
use crate::package_info::{
    PackageInfoView, info_file_content, info_text, lemma_info_round_trip, spec_parse_info,
};
use crate::paths::CACHE_DIR;
use crate::text::{
    Pat, pat_has, lemma_lead_concat, lemma_trail_concat, chars_of, concat, lacks, lemma_lacks_subrange, strings_view, strip_end, contains_char, ends_with, lead, lemma_lead_bound, lemma_trail_bound, owned,
    range_eq, skip_lead, skip_trail, slice_string, starts_with, trail,
};

verus! {

/// Whether a package argument reads as a path to a package file: it holds a `/` or
/// ends in `.pls`.
pub open spec fn is_path_like(input: Seq<char>) -> bool {
    contains_char(input, '/') || ends_with(input, ".pls"@)
}

/// Whether a package argument names a Debian package: it ends in `.deb` or starts
/// with `http`.
pub open spec fn is_deb_source(input: Seq<char>) -> bool {
    ends_with(input, ".deb"@) || starts_with(input, "http"@)
}

/// `s.split(c).last()`: what follows the last `c`, or all of `s`.
pub open spec fn after_last(s: Seq<char>, c: char) -> Seq<char> {
    s.skip(s.len() - trail(s, Pat::NotCh(c)))
}

/// `s.trim_end_matches(p)`: `s` without any number of copies of `p` at its end.
pub open spec fn strip_suffix_all(s: Seq<char>, p: Seq<char>) -> Seq<char>
    decreases s.len(),
{
    if p.len() > 0 && ends_with(s, p) {
        strip_suffix_all(s.take(s.len() - p.len()), p)
    } else {
        s
    }
}

/// `s.split(c).next()`: what comes before the first `c`, or all of `s`.
pub open spec fn before_first(s: Seq<char>, c: char) -> Seq<char> {
    s.take(lead(s, Pat::NotCh(c)) as int)
}

/// The package name taken from the address of a Debian package: the last path
/// segment, without trailing `.deb`s, up to the first `_`.
pub open spec fn deb_name(url: Seq<char>) -> Seq<char> {
    before_first(strip_suffix_all(after_last(url, '/'), ".deb"@), '_')
}

/// Whether `v[lo..hi]` ends with `p`.
fn ends_with_at(v: &Vec<char>, lo: usize, hi: usize, p: &Vec<char>) -> (r: bool)
    requires
        lo <= hi <= v@.len(),
    ensures
        r == ends_with(v@.subrange(lo as int, hi as int), p@),
{
    if p.len() > hi - lo {
        return false;
    }
    let at = hi - p.len();
    proof {
        let s = v@.subrange(lo as int, hi as int);
        assert(s.skip(s.len() - p@.len()) =~= v@.subrange(at as int, at + p@.len()));
    }
    range_eq(v, at, p)
}

/// Whether the package argument reads as a path to a package file.
pub fn looks_like_path(input: &str) -> (r: bool)
    ensures
        r == is_path_like(input@),
{
    let v = chars_of(input);
    let n = v.len();
    let suffix = chars_of(".pls");
    let a = skip_lead(&v, 0, n, Pat::NotCh('/'));
    proof {
        assert(v@.subrange(0, n as int) =~= v@);
        lemma_lead_bound(v@, Pat::NotCh('/'));
    }
    a < n || ends_with_at(&v, 0, n, &suffix)
}

/// Resolves a package argument to a package file on disk: the argument itself when
/// it reads as a path (see [`is_path_like`]) and names an existing file.
/// `path_exists` tells whether it does; it is only consulted for path-like
/// arguments.
pub fn resolve_package_path(input: &str, path_exists: bool) -> (r: Option<String>)
    ensures
        r is Some <==> is_path_like(input@) && path_exists,
        r matches Some(p) ==> p@ == input@,
{
    if looks_like_path(input) && path_exists {
        Some(owned(input))
    } else {
        None
    }
}

/// The package name taken from the address of a Debian package.
pub fn deb_package_name(url: &str) -> (name: String)
    ensures
        name@ == deb_name(url@),
{
    let v = chars_of(url);
    let n = v.len();
    let suffix = chars_of(".deb");
    let start = skip_trail(&v, 0, n, Pat::NotCh('/'));
    proof {
        reveal_strlit(".deb");
        assert(v@.subrange(0, n as int) =~= v@);
        assert(v@.skip(start as int) =~= v@.subrange(start as int, n as int));
    }
    let mut end = n;
    while end - start >= suffix.len() && ends_with_at(&v, start, end, &suffix)
        invariant
            start <= end <= n,
            n == v@.len(),
            suffix@ == ".deb"@,
            suffix@.len() > 0,
            strip_suffix_all(v@.subrange(start as int, n as int), ".deb"@) == strip_suffix_all(
                v@.subrange(start as int, end as int),
                ".deb"@,
            ),
        decreases end,
    {
        assert(v@.subrange(start as int, end as int).take(end - start - suffix@.len())
            =~= v@.subrange(start as int, end - suffix@.len()));
        end = end - suffix.len();
    }
    let stop = skip_lead(&v, start, end, Pat::NotCh('_'));
    proof {
        assert(v@.subrange(start as int, end as int).take(stop - start) =~= v@.subrange(
            start as int,
            stop as int,
        ));
    }
    slice_string(url, start, stop)
}

/// Where to get a package from.
pub enum PackageSource {
    /// a package file on disk
    Local(String),
    /// a Debian package to download from `url` and repackage under `name`
    Deb { url: String, name: String },
    /// the repository's package of this name
    Repository(String),
}

/// Decides where a package argument is got from: a package file on disk first (see
/// [`resolve_package_path`]), then a Debian package (see [`is_deb_source`]), else
/// the repository.
pub fn classify_source(input: &str, path_exists: bool) -> (s: PackageSource)
    ensures
        match s {
            PackageSource::Local(p) => is_path_like(input@) && path_exists && p@ == input@,
            PackageSource::Deb { url, name } => !(is_path_like(input@) && path_exists)
                && is_deb_source(input@) && url@ == input@ && name@ == deb_name(input@),
            PackageSource::Repository(n) => !(is_path_like(input@) && path_exists)
                && !is_deb_source(input@) && n@ == input@,
        },
{
    if let Some(p) = resolve_package_path(input, path_exists) {
        return PackageSource::Local(p);
    }
    let v = chars_of(input);
    let n = v.len();
    let deb = chars_of(".deb");
    let http = chars_of("http");
    let is_deb = ends_with_at(&v, 0, n, &deb) || (http.len() <= n && range_eq(&v, 0, &http));
    proof {
        assert(v@.subrange(0, n as int) =~= v@);
        assert(v@.take(http@.len() as int) =~= v@.subrange(0, http@.len() as int));
    }
    if is_deb {
        PackageSource::Deb { url: owned(input), name: deb_package_name(input) }
    } else {
        PackageSource::Repository(owned(input))
    }
}


/// What is left of `s` after dropping copies of `p` from its end is a prefix of `s`.
proof fn lemma_strip_suffix_all_prefix(s: Seq<char>, p: Seq<char>)
    ensures
        strip_suffix_all(s, p).len() <= s.len(),
        strip_suffix_all(s, p) == s.take(strip_suffix_all(s, p).len() as int),
    decreases s.len(),
{
    if p.len() > 0 && ends_with(s, p) {
        let t = s.take(s.len() - p.len());
        lemma_strip_suffix_all_prefix(t, p);
        let r = strip_suffix_all(t, p);
        assert(r =~= s.take(r.len() as int));
    } else {
        assert(s =~= s.take(s.len() as int));
    }
}

/// The name given to a Debian package has no `/` and no `_`.
pub proof fn lemma_deb_name_plain(url: Seq<char>)
    ensures
        forall|i: int| 0 <= i < deb_name(url).len() ==> #[trigger] deb_name(url)[i] != '/' && deb_name(url)[i] != '_',
{
    let seg = after_last(url, '/');
    lemma_trail_bound(url, Pat::NotCh('/'));
    assert forall|i: int| 0 <= i < seg.len() implies #[trigger] seg[i] != '/' by {
        assert(seg[i] == url[url.len() - trail(url, Pat::NotCh('/')) + i]);
    }
    let t = strip_suffix_all(seg, ".deb"@);
    lemma_strip_suffix_all_prefix(seg, ".deb"@);
    assert forall|i: int| 0 <= i < t.len() implies #[trigger] t[i] != '/' by {
        assert(t[i] == seg[i]);
    }
    lemma_lead_bound(t, Pat::NotCh('_'));
    let r = deb_name(url);
    assert forall|i: int| 0 <= i < r.len() implies #[trigger] r[i] != '/' && r[i] != '_' by {
        assert(r[i] == t[i]);
    }
}


/// Dropping copies of `p` from the end of `s` never reaches a `c` that `p` lacks.
proof fn lemma_strip_suffix_all_keeps(s: Seq<char>, p: Seq<char>, k: int, c: char)
    requires
        0 <= k < s.len(),
        s[k] == c,
        lacks(p, c),
    ensures
        strip_suffix_all(s, p).len() > k,
    decreases s.len(),
{
    if p.len() > 0 && ends_with(s, p) {
        let cut = s.len() - p.len();
        if k >= cut {
            assert(s.skip(cut)[k - cut] == s[k]);
        }
        let t = s.take(cut);
        assert(t[k] == s[k]);
        lemma_strip_suffix_all_keeps(t, p, k, c);
    }
}

/// Every character of `s` is in `p`: all of `s` is its trailing run.
proof fn lemma_trail_all(s: Seq<char>, p: Pat)
    requires
        forall|i: int| 0 <= i < s.len() ==> pat_has(p, #[trigger] s[i]),
    ensures
        trail(s, p) == s.len(),
{
    lemma_trail_bound(s, p);
    if trail(s, p) < s.len() {
        assert(pat_has(p, s[s.len() - 1 - trail(s, p)]));
    }
}

/// The name taken from a Debian package's address is all of its file name up to the
/// first `_`, whatever else the name holds: for a name `n` without `/` or `_` and a
/// remainder without `/`, `<prefix>/<n>_<rest>.deb` gives `n`.
pub proof fn lemma_deb_name_from_address(prefix: Seq<char>, n: Seq<char>, rest: Seq<char>)
    requires
        lacks(n, '/'),
        lacks(n, '_'),
        lacks(rest, '/'),
    ensures
        deb_name(prefix + seq!['/'] + n + seq!['_'] + rest + ".deb"@) == n,
{
    reveal_strlit(".deb");
    let head = prefix + seq!['/'];
    let seg = n + seq!['_'] + rest + ".deb"@;
    let url = prefix + seq!['/'] + n + seq!['_'] + rest + ".deb"@;
    assert(url =~= head + seg);
    assert forall|i: int| 0 <= i < seg.len() implies pat_has(Pat::NotCh('/'), #[trigger] seg[i]) by {
        if i < n.len() {
            assert(seg[i] == n[i]);
        } else if i > n.len() && i < n.len() + 1 + rest.len() {
            assert(seg[i] == rest[i - n.len() - 1]);
        }
    }
    lemma_trail_all(seg, Pat::NotCh('/'));
    lemma_trail_concat(head, seg, Pat::NotCh('/'));
    assert(head.last() == '/');
    assert(trail(head, Pat::NotCh('/')) == 0);
    assert(after_last(url, '/') =~= seg);
    assert(lacks(".deb"@, '_'));
    assert(seg[n.len() as int] == '_');
    lemma_strip_suffix_all_keeps(seg, ".deb"@, n.len() as int, '_');
    lemma_strip_suffix_all_prefix(seg, ".deb"@);
    let r = strip_suffix_all(seg, ".deb"@);
    assert(r[n.len() as int] == '_');
    assert(r =~= n + r.skip(n.len() as int));
    assert forall|i: int| 0 <= i < n.len() implies pat_has(Pat::NotCh('_'), #[trigger] n[i]) by {}
    lemma_lead_concat(n, r.skip(n.len() as int), Pat::NotCh('_'));
    assert(r.skip(n.len() as int)[0] == '_');
    assert(lead(r.skip(n.len() as int), Pat::NotCh('_')) == 0);
    assert(before_first(r, '_') =~= n);
}

/// A downloaded package is kept at a path that reads as a package file, so a later
/// `install` of that path takes it from disk.
pub proof fn lemma_cached_package_is_path(name: Seq<char>)
    ensures
        is_path_like(CACHE_DIR@ + "/"@ + name + ".pls"@),
{
    reveal_strlit("/");
    let p = CACHE_DIR@ + "/"@ + name + ".pls"@;
    assert(p[CACHE_DIR@.len() as int] == '/');
}

/// Where a Debian archive keeps its files, by preference: `data.tar.xz`, then
/// `data.tar.zst`, then `data.tar.gz`, whichever the unpacked archive holds.
pub open spec fn spec_deb_data_archive(deb_dir: Seq<char>, xz: bool, zst: bool, gz: bool) -> Option<Seq<char>> {
    if xz {
        Some(deb_dir + "/data.tar.xz"@)
    } else if zst {
        Some(deb_dir + "/data.tar.zst"@)
    } else if gz {
        Some(deb_dir + "/data.tar.gz"@)
    } else {
        None
    }
}


/// The data archive of an unpacked Debian package: `data.tar.xz` whenever it is
/// there, else `data.tar.zst` when that is there, else `data.tar.gz` when that is;
/// there is none only when none of the three is there.
pub proof fn lemma_deb_data_archive_choice(deb_dir: Seq<char>, xz: bool, zst: bool, gz: bool)
    ensures
        xz ==> spec_deb_data_archive(deb_dir, xz, zst, gz) == Some(deb_dir + "/data.tar.xz"@),
        !xz && zst ==> spec_deb_data_archive(deb_dir, xz, zst, gz) == Some(deb_dir + "/data.tar.zst"@),
        !xz && !zst && gz ==> spec_deb_data_archive(deb_dir, xz, zst, gz) == Some(deb_dir + "/data.tar.gz"@),
        spec_deb_data_archive(deb_dir, xz, zst, gz) is None <==> !xz && !zst && !gz,
{
}

/// The data archive of an unpacked Debian package; the flags tell which of
/// `data.tar.xz`, `data.tar.zst` and `data.tar.gz` are there.
pub fn deb_data_archive(deb_dir: &str, xz: bool, zst: bool, gz: bool) -> (r: Option<String>)
    ensures
        match r {
            Some(p) => spec_deb_data_archive(deb_dir@, xz, zst, gz) == Some(p@),
            None => spec_deb_data_archive(deb_dir@, xz, zst, gz) is None,
        },
{
    if xz {
        Some(concat(deb_dir, "/data.tar.xz"))
    } else if zst {
        Some(concat(deb_dir, "/data.tar.zst"))
    } else if gz {
        Some(concat(deb_dir, "/data.tar.gz"))
    } else {
        None
    }
}

/// The directories of an unpacked Debian package that programs are taken from, in
/// order: `usr/bin`, `usr/local/bin`, `bin`.
pub fn deb_binary_dirs(extract_dir: &str) -> (r: Vec<String>)
    ensures
        strings_view(r@) == seq![
            extract_dir@ + "/usr/bin"@,
            extract_dir@ + "/usr/local/bin"@,
            extract_dir@ + "/bin"@,
        ],
{
    let mut r: Vec<String> = Vec::new();
    r.push(concat(extract_dir, "/usr/bin"));
    r.push(concat(extract_dir, "/usr/local/bin"));
    r.push(concat(extract_dir, "/bin"));
    assert(strings_view(r@) =~= seq![
        extract_dir@ + "/usr/bin"@,
        extract_dir@ + "/usr/local/bin"@,
        extract_dir@ + "/bin"@,
    ]);
    r
}

/// The version given to a package made from a Debian package.
pub open spec fn deb_version() -> Seq<char> {
    "1.0.0"@
}

/// The `info` file of a package made from a Debian package.
pub fn deb_info_content(name: &str) -> (text: String)
    ensures
        text@ == info_text(name@, deb_version()),
{
    info_file_content(name, "1.0.0")
}


/// A package made from a Debian package installs under the name taken from its
/// address (less trailing whitespace) and the version `1.0.0`, for any address on
/// one line.
pub proof fn lemma_deb_package_reads_back(url: Seq<char>)
    requires
        lacks(url, '\n'),
    ensures
        spec_parse_info(info_text(deb_name(url), deb_version())) == (PackageInfoView {
            name: strip_end(deb_name(url), Pat::Ws),
            version: deb_version(),
            depend: Seq::empty(),
        }),
{
    reveal_strlit("1.0.0");
    lemma_trail_bound(url, Pat::NotCh('/'));
    let seg = after_last(url, '/');
    lemma_lacks_subrange(url, url.len() - trail(url, Pat::NotCh('/')), url.len() as int, '\n');
    assert(seg =~= url.subrange(url.len() - trail(url, Pat::NotCh('/')), url.len() as int));
    let t = strip_suffix_all(seg, ".deb"@);
    lemma_strip_suffix_all_prefix(seg, ".deb"@);
    lemma_lacks_subrange(seg, 0, t.len() as int, '\n');
    assert(t =~= seg.subrange(0, t.len() as int));
    lemma_lead_bound(t, Pat::NotCh('_'));
    lemma_lacks_subrange(t, 0, lead(t, Pat::NotCh('_')) as int, '\n');
    assert(deb_name(url) =~= t.subrange(0, lead(t, Pat::NotCh('_')) as int));
    assert(strip_end(deb_version(), Pat::Ws) =~= deb_version()) by {
        assert(trail(deb_version(), Pat::Ws) == 0);
    }
    lemma_info_round_trip(deb_name(url), deb_version());
}

} // verus!
