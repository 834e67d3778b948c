//! A manifest-driven build-graph compiler for native C/C++ workspaces: it
//! models workspace and package manifests, resolves toolchain profiles and
//! inter-package include propagation, filters discovered sources through
//! include/exclude globs, and emits a low-level build description together
//! with a compilation database. Every function here carries a contract; the
//! surrounding binary does the file, process and script-runtime work and
//! hands this library plain values.

pub mod context;
pub mod discover;
pub mod graph;
pub mod hooks;
pub mod manifest;
pub mod ninja;
pub mod paths;
pub mod profile;
pub mod strutil;
