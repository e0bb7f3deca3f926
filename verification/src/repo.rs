//! The repository index: what packages a repository offers, in which version, and
//! which bundles of packages it defines; and the decisions taken from it.
use vstd::prelude::*;
use crate::package_info::{PackageInfo, PackageInfoView};
use crate::text::{chars_of, ends_with, owned, range_eq, strings_view};

verus! {

/// What the index says of one package.
pub struct PackageMeta {
    pub version: String,
    pub size: u64,
    pub sha256: String,
    pub deps: Vec<String>,
    pub desc: String,
}

pub struct PackageMetaView {
    pub version: Seq<char>,
    pub size: u64,
    pub sha256: Seq<char>,
    pub deps: Seq<Seq<char>>,
    pub desc: Seq<char>,
}

impl View for PackageMeta {
    type V = PackageMetaView;

    open spec fn view(&self) -> PackageMetaView {
        PackageMetaView {
            version: self.version@,
            size: self.size,
            sha256: self.sha256@,
            deps: strings_view(self.deps@),
            desc: self.desc@,
        }
    }
}

/// The index of a repository. Packages and bundles are keyed by name; each list
/// holds a name at most once (see [`RepoIndex::wf`]).
pub struct RepoIndex {
    pub version: u32,
    pub updated: String,
    pub packages: Vec<(String, PackageMeta)>,
    pub bundles: Vec<(String, Vec<String>)>,
}

pub struct RepoIndexView {
    pub version: u32,
    pub updated: Seq<char>,
    pub packages: Seq<(Seq<char>, PackageMetaView)>,
    pub bundles: Seq<(Seq<char>, Seq<Seq<char>>)>,
}

pub open spec fn packages_view(ps: Seq<(String, PackageMeta)>) -> Seq<(Seq<char>, PackageMetaView)> {
    ps.map_values(|e: (String, PackageMeta)| (e.0@, e.1@))
}

pub open spec fn bundles_view(bs: Seq<(String, Vec<String>)>) -> Seq<(Seq<char>, Seq<Seq<char>>)> {
    bs.map_values(|e: (String, Vec<String>)| (e.0@, strings_view(e.1@)))
}

impl View for RepoIndex {
    type V = RepoIndexView;

    open spec fn view(&self) -> RepoIndexView {
        RepoIndexView {
            version: self.version,
            updated: self.updated@,
            packages: packages_view(self.packages@),
            bundles: bundles_view(self.bundles@),
        }
    }
}

/// The names of a keyed list.
pub open spec fn keys_of<V>(entries: Seq<(Seq<char>, V)>) -> Seq<Seq<char>> {
    entries.map_values(|e: (Seq<char>, V)| e.0)
}

/// The first position at or after `i` that holds `key`.
pub open spec fn key_pos(keys: Seq<Seq<char>>, key: Seq<char>, i: int) -> Option<int>
    decreases keys.len() - i,
{
    if i < 0 || i >= keys.len() {
        None
    } else if keys[i] == key {
        Some(i)
    } else {
        key_pos(keys, key, i + 1)
    }
}

/// What a keyed list holds under `key`.
pub open spec fn lookup<V>(entries: Seq<(Seq<char>, V)>, key: Seq<char>) -> Option<V> {
    match key_pos(keys_of(entries), key, 0) {
        Some(i) => Some(entries[i].1),
        None => None,
    }
}

/// No name occurs twice.
pub open spec fn keys_unique<V>(entries: Seq<(Seq<char>, V)>) -> bool {
    forall|i: int, j: int|
        0 <= i < j < entries.len() ==> #[trigger] entries[i].0 != #[trigger] entries[j].0
}

/// `entries` with `key` mapped to `value`: the entry of `key` replaced where there
/// is one, else a new entry at the end.
pub open spec fn upsert<V>(entries: Seq<(Seq<char>, V)>, key: Seq<char>, value: V) -> Seq<
    (Seq<char>, V),
> {
    match key_pos(keys_of(entries), key, 0) {
        Some(i) => entries.update(i, (key, value)),
        None => entries.push((key, value)),
    }
}

impl RepoIndexView {
    pub open spec fn wf(self) -> bool {
        keys_unique(self.packages) && keys_unique(self.bundles)
    }
}

impl RepoIndex {
    /// Each package and each bundle is listed once.
    pub open spec fn wf(&self) -> bool {
        self@.wf()
    }
}

pub proof fn lemma_key_pos(keys: Seq<Seq<char>>, key: Seq<char>, i: int)
    requires
        0 <= i,
    ensures
        match key_pos(keys, key, i) {
            Some(j) => i <= j < keys.len() && keys[j] == key && forall|t: int|
                i <= t < j ==> keys[t] != key,
            None => forall|t: int| i <= t < keys.len() ==> keys[t] != key,
        },
    decreases keys.len() - i,
{
    if i < keys.len() && keys[i] != key {
        lemma_key_pos(keys, key, i + 1);
    }
}

/// The names of a keyed list of strings.
pub open spec fn string_keys<V>(entries: Seq<(String, V)>) -> Seq<Seq<char>> {
    entries.map_values(|e: (String, V)| e.0@)
}

/// The position of `key` in a list of names, found by one pass.
fn find_key<V>(entries: &Vec<(String, V)>, key: &String) -> (r: Option<usize>)
    ensures
        match r {
            Some(i) => i < entries@.len() && key_pos(string_keys(entries@), key@, 0) == Some(
                i as int,
            ),
            None => key_pos(string_keys(entries@), key@, 0) is None,
        },
{
    let ghost keys = string_keys(entries@);
    let mut i: usize = 0;
    while i < entries.len()
        invariant
            i <= entries@.len(),
            keys == string_keys(entries@),
            key_pos(keys, key@, 0) == key_pos(keys, key@, i as int),
        decreases entries@.len() - i,
    {
        assert(keys[i as int] == entries@[i as int].0@);
        if entries[i].0 == *key {
            return Some(i);
        }
        i = i + 1;
    }
    None
}

/// Looking up `key` after setting it gives the value set; other names are
/// unaffected.
pub proof fn lemma_upsert_lookup<V>(entries: Seq<(Seq<char>, V)>, key: Seq<char>, value: V, other: Seq<char>)
    ensures
        lookup(upsert(entries, key, value), key) == Some(value),
        other != key ==> lookup(upsert(entries, key, value), other) == lookup(entries, other),
{
    let keys = keys_of(entries);
    let after = upsert(entries, key, value);
    let keys2 = keys_of(after);
    lemma_key_pos(keys, key, 0);
    lemma_key_pos(keys, other, 0);
    lemma_key_pos(keys2, key, 0);
    lemma_key_pos(keys2, other, 0);
    match key_pos(keys, key, 0) {
        Some(i) => {
            assert(keys2 =~= keys.update(i, key));
            assert(keys2[i] == key);
            match key_pos(keys2, key, 0) {
                Some(j) => {
                    if j < i {
                        assert(keys2[j] == keys[j]);
                    }
                    assert(j == i);
                },
                None => {},
            }
            assert(after[i] == (key, value));
        },
        None => {
            assert(keys2 =~= keys.push(key));
            let n = keys.len() as int;
            assert(keys2[n] == key);
            match key_pos(keys2, key, 0) {
                Some(j) => {
                    if j < n {
                        assert(keys2[j] == keys[j]);
                    }
                    assert(j == n);
                },
                None => {},
            }
            assert(after[n] == (key, value));
        },
    }
    if other != key {
        match key_pos(keys, other, 0) {
            Some(j) => {
                assert(keys2[j] == other);
                assert(after[j] == entries[j]);
                assert(key_pos(keys2, other, 0) == Some(j));
            },
            None => {
                assert(key_pos(keys2, other, 0) is None);
            },
        }
    }
}

/// Setting a name keeps every name listed once.
pub proof fn lemma_upsert_unique<V>(entries: Seq<(Seq<char>, V)>, key: Seq<char>, value: V)
    requires
        keys_unique(entries),
    ensures
        keys_unique(upsert(entries, key, value)),
{
    let keys = keys_of(entries);
    lemma_key_pos(keys, key, 0);
    let after = upsert(entries, key, value);
    match key_pos(keys, key, 0) {
        Some(i) => {
            assert(keys[i] == entries[i].0);
            assert forall|a: int, b: int| 0 <= a < b < after.len() implies #[trigger] after[a].0
                != #[trigger] after[b].0 by {
                if a != i && b != i {
                    assert(after[a] == entries[a] && after[b] == entries[b]);
                } else if a == i {
                    assert(after[b] == entries[b]);
                    assert(entries[b].0 != entries[i].0);
                } else {
                    assert(after[a] == entries[a]);
                    assert(entries[a].0 != entries[i].0);
                }
            }
        },
        None => {
            assert forall|a: int, b: int| 0 <= a < b < after.len() implies #[trigger] after[a].0
                != #[trigger] after[b].0 by {
                if b == entries.len() {
                    assert(after[a] == entries[a]);
                    assert(keys[a] == entries[a].0);
                } else {
                    assert(after[a] == entries[a] && after[b] == entries[b]);
                }
            }
        },
    }
}


/// Whether a file in a repository's `packages/` directory is a package: its
/// extension (what follows the last `.` of a name that has something before that
/// `.`) is `pls`.
pub open spec fn is_package_file_name(file_name: Seq<char>) -> bool {
    file_name.len() > 4 && ends_with(file_name, ".pls"@)
}

/// Whether a file in a repository's `packages/` directory is a package.
pub fn is_package_file(file_name: &str) -> (r: bool)
    ensures
        r == is_package_file_name(file_name@),
{
    let v = chars_of(file_name);
    let n = v.len();
    if n <= 4 {
        return false;
    }
    let suffix = chars_of(".pls");
    proof {
        reveal_strlit(".pls");
        assert(v@.skip(n - 4) =~= v@.subrange(n - 4, n - 4 + suffix@.len()));
    }
    range_eq(&v, n - 4, &suffix)
}

/// A package file written by `add` into a repository's `packages/` directory is
/// picked up when the index is rebuilt.
pub proof fn lemma_added_package_is_listed(name: Seq<char>)
    requires
        name.len() > 0,
    ensures
        is_package_file_name(name + ".pls"@),
{
    reveal_strlit(".pls");
    let f = name + ".pls"@;
    assert(f.skip(f.len() - 4) =~= ".pls"@);
}

/// What the index records of a package found in a repository: its version,
/// dependencies, size and checksum, and the description `"<name> package"`.
pub open spec fn meta_of(info: PackageInfoView, size: u64, sha256: Seq<char>) -> PackageMetaView {
    PackageMetaView {
        version: info.version,
        size,
        sha256,
        deps: info.depend,
        desc: info.name + " package"@,
    }
}

/// The index entry for a package found in a repository.
pub fn package_meta(info: PackageInfo, size: u64, sha256: String) -> (m: (String, PackageMeta))
    ensures
        m.0@ == info@.name,
        m.1@ == meta_of(info@, size, sha256@),
{
    let mut desc = info.name.clone();
    desc.append(" package");
    let name = info.name;
    (name, PackageMeta { version: info.version, size, sha256, deps: info.depend, desc })
}

/// Records a package found in a repository; a package found earlier under the same
/// name is replaced.
pub fn record_package(
    packages: &mut Vec<(String, PackageMeta)>,
    info: PackageInfo,
    size: u64,
    sha256: String,
)
    ensures
        packages_view(final(packages)@) == upsert(
            packages_view(old(packages)@),
            info@.name,
            meta_of(info@, size, sha256@),
        ),
        keys_unique(packages_view(old(packages)@)) ==> keys_unique(packages_view(final(packages)@)),
{
    let ghost before = packages_view(packages@);
    let (name, meta) = package_meta(info, size, sha256);
    let ghost key = name@;
    let ghost value = meta@;
    proof {
        assert(string_keys(packages@) =~= keys_of(before));
    }
    proof {
        if keys_unique(before) {
            lemma_upsert_unique(before, key, value);
        }
    }
    let found = find_key(packages, &name);
    assert(key == info@.name);
    assert(value == meta_of(info@, size, sha256@));
    match found {
        Some(i) => {
            assert(key_pos(keys_of(before), key, 0) == Some(i as int));
            assert(upsert(before, key, value) == before.update(i as int, (key, value)));
            packages.set(i, (name, meta));
            assert(packages_view(packages@) =~= before.update(i as int, (key, value)));
        },
        None => {
            assert(key_pos(keys_of(before), key, 0) is None);
            packages.push((name, meta));
            assert(packages_view(packages@) =~= before.push((key, value)));
        },
    }
}

/// A fresh index of this format version, dated `updated`; it is well formed when
/// neither list names anything twice.
pub fn new_index(
    updated: String,
    packages: Vec<(String, PackageMeta)>,
    bundles: Vec<(String, Vec<String>)>,
) -> (idx: RepoIndex)
    ensures
        idx.version == 1,
        idx.updated == updated,
        idx.packages == packages,
        idx.bundles == bundles,
        keys_unique(packages_view(packages@)) && keys_unique(bundles_view(bundles@)) ==> idx.wf(),
{
    RepoIndex { version: 1, updated, packages, bundles }
}

/// Whether the index offers a package of this name.
pub fn contains_package(index: &RepoIndex, name: &str) -> (r: bool)
    ensures
        r == lookup(index@.packages, name@) is Some,
{
    let key = owned(name);
    proof {
        assert(string_keys(index.packages@) =~= keys_of(
            index@.packages,
        ));
    }
    find_key(&index.packages, &key).is_some()
}

/// Copies a list of strings.
pub fn clone_strings(v: &Vec<String>) -> (r: Vec<String>)
    ensures
        strings_view(r@) == strings_view(v@),
{
    let mut out: Vec<String> = Vec::new();
    let mut i: usize = 0;
    while i < v.len()
        invariant
            i <= v@.len(),
            strings_view(out@) == strings_view(v@.take(i as int)),
        decreases v@.len() - i,
    {
        let c = v[i].clone();
        let ghost before = out@;
        out.push(c);
        assert(out@ == before.push(c));
        assert(strings_view(out@) =~= strings_view(before).push(v@[i as int]@));
        assert(v@.take(i + 1) =~= v@.take(i as int).push(v@[i as int]));
        assert(strings_view(v@.take(i + 1)) =~= strings_view(v@.take(i as int)).push(v@[i as int]@));
        i = i + 1;
    }
    assert(v@.take(v@.len() as int) =~= v@);
    out
}

/// The installed packages (name, installed version), in the order given, for which
/// the index offers a different version, each with the version offered.
pub open spec fn updates_needed(
    installed: Seq<(Seq<char>, Seq<char>)>,
    packages: Seq<(Seq<char>, PackageMetaView)>,
) -> Seq<(Seq<char>, Seq<char>, Seq<char>)>
    decreases installed.len(),
{
    if installed.len() == 0 {
        Seq::empty()
    } else {
        let rest = updates_needed(installed.drop_first(), packages);
        match lookup(packages, installed[0].0) {
            Some(m) => if m.version != installed[0].1 {
                seq![(installed[0].0, installed[0].1, m.version)] + rest
            } else {
                rest
            },
            None => rest,
        }
    }
}


/// What the index offers as the version of a package, if it lists it.
pub open spec fn offered_version(packages: Seq<(Seq<char>, PackageMetaView)>, name: Seq<char>) -> Option<Seq<char>> {
    match lookup(packages, name) {
        Some(m) => Some(m.version),
        None => None,
    }
}

/// An update is planned exactly for each installed package that the index lists
/// with a version string not equal to the installed one, whatever the two strings
/// are: the plan holds (name, installed, offered) if and only if (name, installed)
/// is installed, the index offers `offered` for `name`, and `offered != installed`.
pub proof fn lemma_updates_exactly_differing_versions(
    installed: Seq<(Seq<char>, Seq<char>)>,
    packages: Seq<(Seq<char>, PackageMetaView)>,
)
    ensures
        forall|n: Seq<char>, l: Seq<char>, r: Seq<char>|
            #[trigger] updates_needed(installed, packages).contains((n, l, r)) <==> (
            installed.contains((n, l)) && offered_version(packages, n) == Some(r) && r != l),
    decreases installed.len(),
{
    let out = updates_needed(installed, packages);
    if installed.len() == 0 {
        assert forall|n: Seq<char>, l: Seq<char>, r: Seq<char>|
            #[trigger] out.contains((n, l, r)) <==> (installed.contains((n, l)) && offered_version(
                packages,
                n,
            ) == Some(r) && r != l) by {
            assert(!out.contains((n, l, r)));
            assert(!installed.contains((n, l)));
        }
    } else {
        let rest = installed.drop_first();
        let tail = updates_needed(rest, packages);
        lemma_updates_exactly_differing_versions(rest, packages);
        let (n0, l0) = installed[0];
        assert forall|n: Seq<char>, l: Seq<char>, r: Seq<char>|
            #[trigger] out.contains((n, l, r)) <==> (installed.contains((n, l)) && offered_version(
                packages,
                n,
            ) == Some(r) && r != l) by {
            assert(installed =~= seq![installed[0]] + rest);
            if installed.contains((n, l)) {
                let i = choose|i: int| 0 <= i < installed.len() && installed[i] == (n, l);
                if i > 0 {
                    assert(rest[i - 1] == (n, l));
                    assert(rest.contains((n, l)));
                }
            }
            if rest.contains((n, l)) {
                let j = choose|j: int| 0 <= j < rest.len() && rest[j] == (n, l);
                assert(installed[j + 1] == (n, l));
            }
            match lookup(packages, n0) {
                Some(m) => {
                    if m.version != l0 {
                        let x = (n0, l0, m.version);
                        assert(out == seq![x] + tail);
                        if out.contains((n, l, r)) {
                            let k = choose|k: int| 0 <= k < out.len() && out[k] == (n, l, r);
                            if k > 0 {
                                assert(tail[k - 1] == (n, l, r));
                            }
                        }
                        if tail.contains((n, l, r)) {
                            let k = choose|k: int| 0 <= k < tail.len() && tail[k] == (n, l, r);
                            assert(out[k + 1] == (n, l, r));
                        }
                        assert(out[0] == x);
                    } else {
                        assert(out == tail);
                    }
                },
                None => {
                    assert(out == tail);
                },
            }
        }
    }
}

pub open spec fn pairs_view(xs: Seq<(String, String)>) -> Seq<(Seq<char>, Seq<char>)> {
    xs.map_values(|e: (String, String)| (e.0@, e.1@))
}

pub open spec fn triples_view(xs: Seq<(String, String, String)>) -> Seq<(Seq<char>, Seq<char>, Seq<char>)> {
    xs.map_values(|e: (String, String, String)| (e.0@, e.1@, e.2@))
}

/// The updates to make: of the installed packages (name and version), those the
/// index offers in another version, in the order given, as (name, installed
/// version, offered version).
pub fn plan_updates(installed: &Vec<(String, String)>, index: &RepoIndex) -> (r: Vec<(String, String, String)>)
    ensures
        triples_view(r@) == updates_needed(pairs_view(installed@), index@.packages),
{
    let ghost all = pairs_view(installed@);
    let mut out: Vec<(String, String, String)> = Vec::new();
    let mut i: usize = 0;
    proof {
        assert(all.skip(0) =~= all);
        assert(triples_view(out@) =~= Seq::<(Seq<char>, Seq<char>, Seq<char>)>::empty());
        assert(Seq::<(Seq<char>, Seq<char>, Seq<char>)>::empty() + updates_needed(all, index@.packages) =~= updates_needed(
            all,
            index@.packages,
        ));
    }
    while i < installed.len()
        invariant
            i <= installed@.len(),
            all == pairs_view(installed@),
            updates_needed(all, index@.packages) == triples_view(out@) + updates_needed(
                all.skip(i as int),
                index@.packages,
            ),
        decreases installed@.len() - i,
    {
        let (name, local) = (&installed[i].0, &installed[i].1);
        let ghost rest = all.skip(i + 1);
        proof {
            assert(all.skip(i as int).drop_first() =~= rest);
            assert(all.skip(i as int)[0] == (name@, local@));
            assert(string_keys(index.packages@) =~= keys_of(index@.packages));
        }
        match find_key(&index.packages, name) {
            Some(k) => {
                let remote = &index.packages[k].1.version;
                assert(index@.packages[k as int] == (index.packages@[k as int].0@, index.packages@[k as int].1@));
                if *remote != *local {
                    let ghost before = triples_view(out@);
                    let ghost item = (name@, local@, remote@);
                    out.push((name.clone(), local.clone(), remote.clone()));
                    assert(triples_view(out@) =~= before.push(item));
                    assert(before + (seq![item] + updates_needed(rest, index@.packages)) =~= before.push(item)
                        + updates_needed(rest, index@.packages));
                }
            },
            None => {},
        }
        i = i + 1;
    }
    assert(all.skip(i as int) =~= Seq::<(Seq<char>, Seq<char>)>::empty());
    assert(triples_view(out@) + Seq::<(Seq<char>, Seq<char>, Seq<char>)>::empty() =~= triples_view(out@));
    out
}

/// Why a bundle cannot be installed.
pub enum BundleError {
    /// the index defines no bundle of this name
    NotFound,
    /// the bundle lists no packages
    Empty,
}

/// The packages of a bundle, in the order the index lists them.
pub fn bundle_packages(index: &RepoIndex, name: &str) -> (r: Result<Vec<String>, BundleError>)
    ensures
        match lookup(index@.bundles, name@) {
            None => r matches Err(BundleError::NotFound),
            Some(ps) => if ps.len() == 0 {
                r matches Err(BundleError::Empty)
            } else {
                r matches Ok(v) && strings_view(v@) == ps
            },
        },
{
    let key = owned(name);
    proof {
        assert(string_keys(index.bundles@) =~= keys_of(
            index@.bundles,
        ));
    }
    match find_key(&index.bundles, &key) {
        Some(k) => {
            let ps = &index.bundles[k].1;
            assert(index@.bundles[k as int] == (index.bundles@[k as int].0@, strings_view(
                index.bundles@[k as int].1@,
            )));
            if ps.len() == 0 {
                Err(BundleError::Empty)
            } else {
                Ok(clone_strings(ps))
            }
        },
        None => Err(BundleError::NotFound),
    }
}

} // verus!
