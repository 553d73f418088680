//! Seeding a Cargo target directory from an existing one.
//!
//! Cutting a git worktree, or any second checkout, leaves a build that starts
//! from nothing. Copying `target/` across is the obvious fix and the wrong one:
//! it is routinely tens of gigabytes. What this crate does instead is build the
//! new directory out of the old one's storage: a block clone where the file
//! system offers it, and a hard link for the large write-once artifacts where
//! it does not. The second tree is warm without being a second copy.
//!
//! What belongs here is what Cargo knows: where the target directory is, which
//! of its contents may be shared, which must be a file of their own, and that a
//! half-built tree must never be visible under a name Cargo reads. Deciding
//! *where* the new tree goes is the caller's.
//!
//! Nothing here touches a file. [`seed`] and [`prune::prune`] start runs that
//! ask for one thing after another, in the terms of [`protocol`], and are told
//! what came of it. What every run keeps to is proved in [`seed_laws`] and
//! [`prune_laws`], and beside the parts that runs are made of; how a run goes from
//! one step to the next, in [`seed_rules`], [`fill_rules`] and [`prune_rules`]; what
//! runs leave in a file system, in [`world_seed`] and [`world_prune`].

pub mod command;
pub mod describe;
pub mod describe_laws;
pub mod error;
pub mod fill;
pub mod fill_laws;
pub mod fill_rules;
pub mod lock;
pub mod lock_laws;
pub mod metadata;
pub mod nesting;
pub mod outside;
pub mod path;
pub mod path_laws;
pub mod probe;
pub mod probe_laws;
pub mod protocol;
pub mod prune;
pub mod prune_laws;
pub mod prune_rules;
pub mod search;
pub mod search_laws;
pub mod seed;
pub mod seed_laws;
pub mod seed_rules;
pub mod staging;
pub mod staging_laws;
pub mod text;
pub mod text_laws;
pub mod totals;
pub mod weigh;
pub mod weigh_laws;
pub mod world;
pub mod world_prune;
pub mod world_search;
pub mod world_seed;

pub use error::Error;
pub use metadata::workspace_target_dir;
pub use probe::supports_reflink;
pub use seed::{seed, staging_path, Options, Report, Strategy, DEFAULT_MIN_SHARED_SIZE};
