//! Where the package manager keeps things, and the paths and addresses built from
//! package names.
use vstd::prelude::*;
use crate::text::{owned, trim, trimmed};

verus! {

/// The repository that packages are fetched from.
pub const REPO_URL: &'static str = "https://tostcra.github.io/aura-repo";

/// Where downloaded packages are kept.
pub const CACHE_DIR: &'static str = "/var/cache/pls";

/// Where `add` puts the packages it builds, unless told otherwise.
pub const PACKAGES_DIR: &'static str = "/var/lib/pls/packages";

/// The database of installed packages: one directory per package.
pub const DB_DIR: &'static str = "/var/lib/pls/db";

/// The root of the file system that packages are installed into.
pub const ROOT: &'static str = "/";

/// The database entry of an installed package: a directory named after it.
pub fn db_entry_path(name: &str) -> (p: String)
    ensures
        p@ == DB_DIR@ + "/"@ + name@,
{
    let mut p = owned(DB_DIR);
    p.append("/");
    p.append(name);
    p
}

/// The `info` file kept in the database entry of an installed package.
pub fn db_info_path(name: &str) -> (p: String)
    ensures
        p@ == DB_DIR@ + "/"@ + name@ + "/info"@,
{
    let mut p = db_entry_path(name);
    p.append("/info");
    p
}

/// Where an installed program lands.
pub fn installed_binary_path(file_name: &str) -> (p: String)
    ensures
        p@ == ROOT@ + "/usr/bin/"@ + file_name@,
{
    let mut p = owned(ROOT);
    p.append("/usr/bin/");
    p.append(file_name);
    p
}

/// The directory installed programs land in.
pub fn installed_binary_dir() -> (p: String)
    ensures
        p@ == ROOT@ + "/usr/bin"@,
{
    let mut p = owned(ROOT);
    p.append("/usr/bin");
    p
}

/// The address of the repository's index.
pub fn index_url() -> (u: String)
    ensures
        u@ == REPO_URL@ + "/index.json"@,
{
    let mut u = owned(REPO_URL);
    u.append("/index.json");
    u
}

/// The address of a package in the repository; surrounding whitespace of the name
/// is dropped.
pub fn package_url(name: &str) -> (u: String)
    ensures
        u@ == REPO_URL@ + "/packages/"@ + trim(name@) + ".pls"@,
{
    let mut u = owned(REPO_URL);
    u.append("/packages/");
    let t = trimmed(name);
    u.append(t.as_str());
    u.append(".pls");
    u
}

/// Where a downloaded package is kept.
pub fn cached_package_path(name: &str) -> (p: String)
    ensures
        p@ == CACHE_DIR@ + "/"@ + name@ + ".pls"@,
{
    let mut p = owned(CACHE_DIR);
    p.append("/");
    p.append(name);
    p.append(".pls");
    p
}

/// The package file that `add` writes for a package into a directory.
pub fn package_file_path(output_dir: &str, name: &str) -> (p: String)
    ensures
        p@ == output_dir@ + "/"@ + name@ + ".pls"@,
{
    let mut p = owned(output_dir);
    p.append("/");
    p.append(name);
    p.append(".pls");
    p
}

/// The directory `add` writes into: the one asked for, else [`PACKAGES_DIR`].
pub fn output_dir_or_default(output_dir: Option<&str>) -> (d: String)
    ensures
        d@ == match output_dir {
            Some(o) => o@,
            None => PACKAGES_DIR@,
        },
{
    match output_dir {
        Some(o) => owned(o),
        None => owned(PACKAGES_DIR),
    }
}

} // verus!
