//! What a command line asks for.

use crate::path::FsPath;
use crate::prune::Options as PruneOptions;
use crate::seed::Options;
use vstd::prelude::*;

verus! {

/// The arguments of a run.
#[derive(Debug)]
pub struct Arguments {
    /// The target directory to seed from; where it is not given, the one Cargo
    /// would use.
    pub src: Option<FsPath>,
    /// The target directory to create.
    pub dest: Option<FsPath>,
    /// Where to build the tree before renaming it into place.
    pub staging: Option<FsPath>,
    /// From which size on files are shared where blocks cannot be cloned.
    pub min_shared_size: u64,
    /// Instead of seeding: where to look for staged trees.
    pub prune: Option<FsPath>,
    /// Whether to remove what is found there.
    pub remove: bool,
}

/// A seeding whose source is still to be found.
#[derive(Debug)]
pub struct Unsourced {
    pub dest: FsPath,
    pub staging: Option<FsPath>,
    pub min_shared_size: u64,
}

impl Unsourced {
    /// The seeding from `src`.
    pub fn from_source(self, src: FsPath) -> (r: Options)
        ensures
            r == (Options {
                src,
                dest: self.dest,
                staging: self.staging,
                min_shared_size: self.min_shared_size,
            }),
    {
        Options {
            src,
            dest: self.dest,
            staging: self.staging,
            min_shared_size: self.min_shared_size,
        }
    }
}

/// What a run is to do.
#[derive(Debug)]
pub enum Plan {
    Prune(PruneOptions),
    /// Seed from where Cargo says its target directory is.
    FindSource(Unsourced),
    Seed(Options),
}

/// What the arguments ask for. Without a place to prune there has to be a
/// destination.
pub fn plan(args: Arguments) -> (r: Plan)
    requires
        args.prune is Some || args.dest is Some,
    ensures
        r == match (args.prune, args.src) {
            (Some(root), _) => Plan::Prune(PruneOptions { root, remove: args.remove }),
            (None, None) => Plan::FindSource(
                Unsourced {
                    dest: args.dest->0,
                    staging: args.staging,
                    min_shared_size: args.min_shared_size,
                },
            ),
            (None, Some(src)) => Plan::Seed(
                Options {
                    src,
                    dest: args.dest->0,
                    staging: args.staging,
                    min_shared_size: args.min_shared_size,
                },
            ),
        },
{
    if let Some(root) = args.prune {
        return Plan::Prune(PruneOptions { root, remove: args.remove });
    }
    let rest = Unsourced {
        dest: args.dest.unwrap(),
        staging: args.staging,
        min_shared_size: args.min_shared_size,
    };
    match args.src {
        Some(src) => Plan::Seed(rest.from_source(src)),
        None => Plan::FindSource(rest),
    }
}

/// The tree that a failed seeding left behind, where `there` is one.
///
/// Most of the refusals happen before the first directory is made, and pointing
/// at a path that does not exist would send the reader looking for it.
pub fn left_behind(staging: FsPath, there: bool) -> (r: Option<FsPath>)
    ensures
        r == (if there {
            Some(staging)
        } else {
            None
        }),
{
    if there {
        Some(staging)
    } else {
        None
    }
}

} // verus!
