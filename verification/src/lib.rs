//! Core engine of a dotfiles manager: configuration resolution and
//! directory synchronization.
//!
//! The crate models a repository of named configuration directories
//! ("configs") and reconciles their contents with per-platform deployment
//! targets:
//!
//! * [`version`] — the semantic-version constraint language used to validate
//!   system dependencies;
//! * [`config`] — the in-memory configuration schema (root and per-config
//!   descriptors);
//! * [`exclude`] — glob-based exclusion sets built from several pattern
//!   sources;
//! * [`structure`] — discovery of the config catalog under root-level
//!   exclusion rules;
//! * [`deploy`] — the one-way push of a config's source tree to its target;
//! * [`pull`] — the two-way reconciliation of a deployed tree back into the
//!   repository;
//! * [`diff`] — line-level diffs used to present pending modifications;
//! * [`io_checks`] — pure decision logic behind the filesystem pre-checks.
//!
//! All filesystem access, prompting and terminal rendering live outside this
//! crate; the functions here take plain values (directory listings, file
//! contents, answers to prompts) and return plain decisions.

pub mod config;
pub mod deploy;
pub mod diff;
pub mod err;
pub mod exclude;
pub mod io_checks;
pub mod pull;
pub mod structure;
pub mod version;
