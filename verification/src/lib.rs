//! Package description parsing and the decisions of a small package manager.
pub mod text;
pub mod package_info;
pub mod paths;
pub mod source;
pub mod repo;
pub mod digest;
pub mod project;
pub mod cli;
