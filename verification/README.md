# pls

A small package manager: it installs programs packed as `.pls` files (a
zstd-compressed tar with a `bin/` directory and an `info` file), builds such
packages from Cargo, CMake, Meson or `pls.toml` projects, converts Debian
packages, and keeps a repository index (`index.json`) of packages and bundles.

- `src/` is the library, verified with Verus: the readers of `info` files and of
  the projects' build files, project detection and build plans, the repository
  index and the decisions taken from it (updates, bundles, where a package comes
  from), the command line, and the paths and addresses the tool uses. Package
  checksums go through the `sha2` and `hex` crates.
- `app/` is the program around it: file system, processes, the network (`reqwest`,
  `tokio`), packing (`tar`, `zstd`), the date (`chrono`) and `index.json`
  (`serde`, `serde_json`).
- `tests/` exercises the library.
